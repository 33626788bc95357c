//! Decisions of the repository store about guarded closure, made on
//! values the store has already read: whether a candidate may close the
//! current plan, whether the subject drifted while it was being written,
//! and whether a stored closure record still holds against its plan and
//! evidence. Reading, locking and writing files stay with the host.
use crate::assessment::{obs_keys, obs_views, permuted, plan_spec, PlanAssessmentV, AssessmentStatus};
use crate::closure::{
    all_satisfying, closure_fault, effective_observations, first_with, kept, lineage_fault, link_pairs, obs_pairs,
    pair_keys, policy_json, reorder, supersession_pairs, ClosureCandidate, ClosureRecord, EvidenceSupersessionRecord,
    ProviderPolicyEntry,
};
use crate::digest::{digest_json, json_digest};
use crate::evidence::{
    descriptor_fault, lookup_provider, DescriptorV, EvidenceError, EvidenceErrorV, EvidenceObservation, ObservationV,
    ProviderDescriptor, ProviderRegistry,
};
use crate::identity::EvidenceObservationId;
use crate::model::{Plan, PlanStatus, SubjectRevision};
use crate::schema::{plan_json, plan_to_json};
use crate::sort::stable_perm;
use crate::text::{chars_of, owned};
use vstd::prelude::*;

verus! {

/// Why a closure is refused.
#[derive(Debug, Clone, PartialEq, Eq)]
pub enum ClosureRefusal {
    /// The candidate no longer matches the plan, its evidence or its policy.
    InvalidUpdate,
    /// The subject changed before finalization began.
    SubjectStale,
    /// The subject changed while the closure was being finalized.
    SubjectDrift,
    /// The evidence lineage is refused.
    Lineage(String),
    /// The provider policy cannot be registered.
    Provider(EvidenceError),
}

/// Value of a closure refusal.
pub enum RefusalV {
    InvalidUpdate,
    SubjectStale,
    SubjectDrift,
    Lineage(Seq<char>),
    Provider(EvidenceErrorV),
}

impl View for ClosureRefusal {
    type V = RefusalV;

    open spec fn view(&self) -> RefusalV {
        match self {
            ClosureRefusal::InvalidUpdate => RefusalV::InvalidUpdate,
            ClosureRefusal::SubjectStale => RefusalV::SubjectStale,
            ClosureRefusal::SubjectDrift => RefusalV::SubjectDrift,
            ClosureRefusal::Lineage(m) => RefusalV::Lineage(m@),
            ClosureRefusal::Provider(e) => RefusalV::Provider(e@),
        }
    }
}

/// The registry a provider policy gives, entry by entry over the first
/// `n`, or the first refusal: an invalid descriptor or a repeated identity.
pub open spec fn registry_outcome(p: Seq<ProviderPolicyEntry>, n: int) -> Result<Seq<DescriptorV>, EvidenceErrorV>
    decreases n,
{
    if n <= 0 {
        Ok(Seq::empty())
    } else {
        match registry_outcome(p, n - 1) {
            Err(e) => Err(e),
            Ok(reg) => {
                let e = p[n - 1];
                match descriptor_fault(e.class@, e.allowed_kinds@) {
                    Some(f) => Err(f),
                    None => if lookup_provider(reg, e.provider_id@) is Some {
                        Err(EvidenceErrorV::DuplicateProvider(e.provider_id@))
                    } else {
                        Ok(reg.push(DescriptorV { id: e.provider_id@, class: e.class@, allowed_kinds: e.allowed_kinds@ }))
                    },
                }
            },
        }
    }
}

/// The registry of a whole provider policy (see `registry_outcome`).
pub open spec fn policy_registry(p: Seq<ProviderPolicyEntry>) -> Result<Seq<DescriptorV>, EvidenceErrorV> {
    registry_outcome(p, p.len() as int)
}

/// Registers each entry of a provider policy as a trusted provider.
pub fn registry_from_policy(policy: &Vec<ProviderPolicyEntry>) -> (r: Result<ProviderRegistry, EvidenceError>)
    ensures
        match r {
            Ok(reg) => policy_registry(policy@) == Ok::<Seq<DescriptorV>, EvidenceErrorV>(reg@),
            Err(e) => policy_registry(policy@) == Err::<Seq<DescriptorV>, EvidenceErrorV>(e@),
        },
{
    let mut reg = ProviderRegistry::new();
    let mut i: usize = 0;
    while i < policy.len()
        invariant
            i <= policy@.len(),
            registry_outcome(policy@, i as int) == Ok::<Seq<DescriptorV>, EvidenceErrorV>(reg@),
        decreases policy.len() - i,
    {
        let e = &policy[i];
        let kinds = e.allowed_kinds.kinds();
        let d = match ProviderDescriptor::new(e.provider_id.duplicate(), e.class.as_str(), kinds.as_slice()) {
            Ok(d) => d,
            Err(err) => {
                proof {
                    lemma_registry_err_stable(policy@, i + 1, policy@.len() as int);
                }
                return Err(err);
            },
        };
        match reg.register_trusted(d) {
            Ok(()) => {},
            Err(err) => {
                proof {
                    lemma_registry_err_stable(policy@, i + 1, policy@.len() as int);
                }
                return Err(err);
            },
        }
        i = i + 1;
    }
    Ok(reg)
}

proof fn lemma_registry_err_stable(p: Seq<ProviderPolicyEntry>, n: int, m: int)
    requires
        0 <= n <= m,
        registry_outcome(p, n) is Err,
    ensures
        registry_outcome(p, m) == registry_outcome(p, n),
    decreases m - n,
{
    if m > n {
        lemma_registry_err_stable(p, n, m - 1);
    }
}

/// The effective observations in identifier order.
pub open spec fn effective_spec(ov: Seq<ObservationV>, links: Seq<EvidenceSupersessionRecord>) -> Seq<ObservationV> {
    let k = kept(ov, links, ov.len() as int);
    permuted(k, stable_perm(obs_keys(k)))
}

/// The assessment of a plan against the effective observations, the
/// subject and a registry.
pub open spec fn reassessed(
    plan: Plan,
    subject: SubjectRevision,
    reg: Seq<DescriptorV>,
    ov: Seq<ObservationV>,
    links: Seq<EvidenceSupersessionRecord>,
) -> PlanAssessmentV {
    let e = effective_spec(ov, links);
    plan_spec(plan, subject@, reg, permuted(e, stable_perm(obs_keys(e))))
}

/// Some observation carries the identifier and the digest.
pub open spec fn has_pair(ov: Seq<ObservationV>, p: (Seq<char>, Seq<char>)) -> bool {
    exists|k: int| 0 <= k < ov.len() && (#[trigger] ov[k]).id == p.0 && ov[k].content_digest == p.1
}

/// Each identifier with the digest of the first observation that carries
/// it; none when some identifier has no observation.
pub open spec fn first_digests(ids: Seq<Seq<char>>, ov: Seq<ObservationV>) -> Option<Seq<(Seq<char>, Seq<char>)>>
    decreases ids.len(),
{
    if ids.len() == 0 {
        Some(Seq::empty())
    } else {
        match first_digests(ids.drop_last(), ov) {
            None => None,
            Some(ps) => if exists|k: int| first_with(ov, ids.last(), k) {
                let k = choose|k: int| first_with(ov, ids.last(), k);
                Some(ps.push((ids.last(), ov[k].content_digest)))
            } else {
                None
            },
        }
    }
}

/// Pairs in increasing order of identifier, then digest.
pub open spec fn sorted_pairs(p: Seq<(Seq<char>, Seq<char>)>) -> Seq<(Seq<char>, Seq<char>)> {
    reorder(p, stable_perm(pair_keys(p)))
}

/// The satisfying observations a candidate must record for its
/// assessment: each satisfying identifier with its first observation's
/// digest, sorted.
pub open spec fn expected_pairs(c: ClosureCandidate, ov: Seq<ObservationV>) -> Option<Seq<(Seq<char>, Seq<char>)>> {
    match first_digests(all_satisfying(c.assessment@), ov) {
        Some(p) => Some(sorted_pairs(p)),
        None => None,
    }
}

/// What refuses a candidate against the current plan, the subject just
/// captured, the observations and the supersessions, in order: a changed
/// plan revision or content; a changed subject; a refused lineage; a policy
/// that cannot be registered; a reassessment that is not Complete or not
/// the candidate's; a recorded satisfying observation that is missing or
/// changed; satisfying observations other than the assessment's; a policy
/// digest or supersession lineage other than recorded; a revision that
/// cannot advance.
pub open spec fn admission_fault(
    current: Plan,
    c: ClosureCandidate,
    s1: SubjectRevision,
    ov: Seq<ObservationV>,
    links: Seq<EvidenceSupersessionRecord>,
) -> Option<RefusalV> {
    if current.revision != c.source_revision || json_digest(plan_json(current)) != c.source_plan_digest@ {
        Some(RefusalV::InvalidUpdate)
    } else if s1@ != c.subject@ {
        Some(RefusalV::SubjectStale)
    } else if lineage_fault(ov, links) is Some {
        Some(RefusalV::Lineage(lineage_fault(ov, links)->0))
    } else if policy_registry(c.provider_policy@) is Err {
        Some(RefusalV::Provider(policy_registry(c.provider_policy@)->Err_0))
    } else if reassessed(current, s1, policy_registry(c.provider_policy@)->Ok_0, ov, links).status
        != AssessmentStatus::Complete || reassessed(current, s1, policy_registry(c.provider_policy@)->Ok_0, ov, links)
        != c.assessment@ {
        Some(RefusalV::InvalidUpdate)
    } else if exists|i: int| 0 <= i < c.satisfying_observations@.len() && !has_pair(ov, #[trigger] obs_pairs(c.satisfying_observations@)[i]) {
        Some(RefusalV::InvalidUpdate)
    } else if expected_pairs(c, ov) != Some(obs_pairs(c.satisfying_observations@)) {
        Some(RefusalV::InvalidUpdate)
    } else if json_digest(policy_json(c.provider_policy@)) != c.provider_policy_digest@ {
        Some(RefusalV::InvalidUpdate)
    } else if supersession_pairs(links) != link_pairs(c.supersession_digests@) {
        Some(RefusalV::InvalidUpdate)
    } else if current.revision == u64::MAX {
        Some(RefusalV::InvalidUpdate)
    } else {
        None
    }
}

proof fn lemma_first_digests_none_stable(ids: Seq<Seq<char>>, ov: Seq<ObservationV>, n: int)
    requires
        0 <= n <= ids.len(),
        first_digests(ids.take(n), ov) is None,
    ensures
        first_digests(ids, ov) is None,
    decreases ids.len() - n,
{
    if n < ids.len() {
        assert(ids.take(n + 1).drop_last() =~= ids.take(n));
        lemma_first_digests_none_stable(ids, ov, n + 1);
    } else {
        assert(ids.take(n) =~= ids);
    }
}

/// Each satisfying identifier of an assessment with the digest of its
/// first observation (see `first_digests`), sorted.
fn expected_satisfying(c: &ClosureCandidate, observations: &[EvidenceObservation]) -> (r: Option<Vec<(String, String)>>)
    ensures
        match r {
            Some(v) => expected_pairs(*c, obs_views(observations@)) == Some(
                Seq::new(v@.len(), |i: int| (v@[i].0@, v@[i].1@)),
            ),
            None => expected_pairs(*c, obs_views(observations@)) is None,
        },
{
    let ghost ov = obs_views(observations@);
    let ids = crate::closure::collect_satisfying(&c.assessment);
    let ghost all = all_satisfying(c.assessment@);
    let mut pairs: Vec<(String, String)> = Vec::new();
    let mut i: usize = 0;
    assert(all.take(0) =~= Seq::<Seq<char>>::empty());
    while i < ids.len()
        invariant
            i <= ids@.len(),
            ov == obs_views(observations@),
            all == all_satisfying(c.assessment@),
            crate::assessment::obs_id_views(ids@) == all,
            first_digests(all.take(i as int), ov) == Some(Seq::new(pairs@.len(), |k: int| (pairs@[k].0@, pairs@[k].1@))),
        decreases ids.len() - i,
    {
        let ghost before = Seq::new(pairs@.len(), |k: int| (pairs@[k].0@, pairs@[k].1@));
        assert(all.take(i + 1).drop_last() =~= all.take(i as int));
        assert(all.take(i + 1).last() == ids@[i as int]@);
        match crate::closure::find_first(observations, &ids[i]) {
            Some(k) => {
                pairs.push((ids[i].to_string(), owned(observations[k].content_digest())));
                proof {
                    let id = ids@[i as int]@;
                    let kk = choose|kk: int| first_with(ov, id, kk);
                    assert(kk == k) by {
                        if kk < k {
                            assert(ov[kk].id == id);
                        } else if kk > k {
                            assert(ov[k as int].id == id);
                        }
                    }
                    assert(Seq::new(pairs@.len(), |x: int| (pairs@[x].0@, pairs@[x].1@)) =~= before.push(
                        (id, ov[k as int].content_digest),
                    ));
                }
            },
            None => {
                proof {
                    let id = ids@[i as int]@;
                    assert(!(exists|kk: int| first_with(ov, id, kk))) by {
                        if exists|kk: int| first_with(ov, id, kk) {
                            let kk = choose|kk: int| first_with(ov, id, kk);
                            assert(ov[kk].id == id);
                        }
                    }
                    assert(first_digests(all.take(i + 1), ov) is None);
                    lemma_first_digests_none_stable(all, ov, i + 1);
                }
                return None;
            },
        }
        i = i + 1;
    }
    assert(all.take(ids@.len() as int) =~= all);
    let ghost pv = Seq::new(pairs@.len(), |k: int| (pairs@[k].0@, pairs@[k].1@));
    let mut keys: Vec<crate::sort::SortKey> = Vec::new();
    let mut i: usize = 0;
    while i < pairs.len()
        invariant
            i <= pairs@.len(),
            pv == Seq::new(pairs@.len(), |k: int| (pairs@[k].0@, pairs@[k].1@)),
            keys@.len() == i,
            forall|k: int| 0 <= k < i ==> (#[trigger] keys@[k])@ == pair_keys(pv)[k],
        decreases pairs.len() - i,
    {
        keys.push(crate::sort::SortKey { rank: 0, first: pairs[i].0.clone(), second: pairs[i].1.clone() });
        i = i + 1;
    }
    assert(crate::sort::key_views(keys@) =~= pair_keys(pv));
    let perm = crate::sort::stable_order(&keys);
    proof {
        crate::sort::lemma_stable_perm(pair_keys(pv), perm@);
    }
    let mut out: Vec<(String, String)> = Vec::new();
    let mut k: usize = 0;
    while k < perm.len()
        invariant
            k <= perm@.len(),
            pv == Seq::new(pairs@.len(), |x: int| (pairs@[x].0@, pairs@[x].1@)),
            perm@ == stable_perm(pair_keys(pv)),
            crate::sort::stably_sorted(pair_keys(pv), perm@),
            out@.len() == k,
            forall|x: int| 0 <= x < k ==> (#[trigger] out@[x]).0@ == pv[perm@[x] as int].0 && out@[x].1@ == pv[perm@[x] as int].1,
        decreases perm.len() - k,
    {
        let j = perm[k];
        out.push((pairs[j].0.clone(), pairs[j].1.clone()));
        k = k + 1;
    }
    assert(Seq::new(out@.len(), |x: int| (out@[x].0@, out@[x].1@)) =~= sorted_pairs(pv));
    Some(out)
}

/// Decides whether a candidate may close the current plan, given the
/// subject captured just before, the plan's observations and its
/// supersessions: refused as `admission_fault` says, otherwise the Closed
/// plan at the next revision.
#[verifier::rlimit(40)]
#[verifier::loop_isolation(false)]
pub fn admit_closure(
    current: Plan,
    candidate: &ClosureCandidate,
    s1: &SubjectRevision,
    observations: &[EvidenceObservation],
    supersessions: &[EvidenceSupersessionRecord],
) -> (r: Result<Plan, ClosureRefusal>)
    ensures
        match admission_fault(current, *candidate, *s1, obs_views(observations@), supersessions@) {
            Some(f) => r matches Err(e) && e@ == f,
            None => r == Ok::<Plan, ClosureRefusal>(
                Plan { revision: (current.revision + 1) as u64, status: PlanStatus::Closed, ..current },
            ),
        },
{
    let ghost ov = obs_views(observations@);
    if current.revision != candidate.source_revision || digest_json(&plan_to_json(&current))
        != candidate.source_plan_digest {
        return Err(ClosureRefusal::InvalidUpdate);
    }
    if !s1.same(&candidate.subject) {
        return Err(ClosureRefusal::SubjectStale);
    }
    let effective = match effective_observations(observations, supersessions) {
        Ok(e) => e,
        Err(m) => {
            return Err(ClosureRefusal::Lineage(m));
        },
    };
    proof {
        let k = kept(ov, supersessions@, ov.len() as int);
        let perm = choose|perm: Seq<usize>|
            crate::closure::stably_sorted_kept(ov, supersessions@, perm) && obs_views(effective@) == permuted(k, perm);
        crate::sort::lemma_stable_perm(obs_keys(k), perm);
        assert(obs_views(effective@) == effective_spec(ov, supersessions@));
    }
    let reg = match registry_from_policy(&candidate.provider_policy) {
        Ok(reg) => reg,
        Err(e) => {
            return Err(ClosureRefusal::Provider(e));
        },
    };
    let assessment = crate::assessment::assess_plan(&current, s1, effective.as_slice(), &reg);
    if assessment.status != AssessmentStatus::Complete || !assessment.same(&candidate.assessment) {
        return Err(ClosureRefusal::InvalidUpdate);
    }
    let sat = &candidate.satisfying_observations;
    let mut i: usize = 0;
    while i < sat.len()
        invariant
            i <= sat@.len(),
            ov == obs_views(observations@),
            forall|x: int| 0 <= x < i ==> has_pair(ov, #[trigger] obs_pairs(sat@)[x]),
        decreases sat.len() - i,
    {
        let mut found = false;
        let mut k: usize = 0;
        while k < observations.len() && !found
            invariant
                k <= observations@.len(),
                i < sat@.len(),
                ov == obs_views(observations@),
                found ==> has_pair(ov, obs_pairs(sat@)[i as int]),
                !found ==> forall|y: int| 0 <= y < k ==> !((#[trigger] ov[y]).id == sat@[i as int].0@ && ov[y].content_digest
                    == sat@[i as int].1@),
            decreases observations.len() - k,
        {
            if observations[k].id().same(&sat[i].0) && crate::text::str_eq(observations[k].content_digest(), sat[i].1.as_str()) {
                found = true;
                assert(ov[k as int].id == obs_pairs(sat@)[i as int].0);
            }
            k = k + 1;
        }
        if !found {
            assert(!has_pair(ov, obs_pairs(sat@)[i as int]));
            return Err(ClosureRefusal::InvalidUpdate);
        }
        i = i + 1;
    }
    let expected = match expected_satisfying(candidate, observations) {
        Some(v) => v,
        None => {
            return Err(ClosureRefusal::InvalidUpdate);
        },
    };
    if expected.len() != sat.len() {
        assert(obs_pairs(sat@).len() != Seq::new(expected@.len(), |x: int| (expected@[x].0@, expected@[x].1@)).len());
        return Err(ClosureRefusal::InvalidUpdate);
    }
    let mut i: usize = 0;
    while i < sat.len()
        invariant
            i <= sat@.len(),
            expected@.len() == sat@.len(),
            forall|x: int| 0 <= x < i ==> (#[trigger] expected@[x]).0@ == sat@[x].0@ && expected@[x].1@ == sat@[x].1@,
        decreases sat.len() - i,
    {
        if !(crate::text::str_eq(expected[i].0.as_str(), sat[i].0.as_str()) && crate::text::str_eq(
            expected[i].1.as_str(),
            sat[i].1.as_str(),
        )) {
            assert(Seq::new(expected@.len(), |x: int| (expected@[x].0@, expected@[x].1@))[i as int] != obs_pairs(
                sat@,
            )[i as int]);
            return Err(ClosureRefusal::InvalidUpdate);
        }
        i = i + 1;
    }
    assert(Seq::new(expected@.len(), |x: int| (expected@[x].0@, expected@[x].1@)) =~= obs_pairs(sat@));
    if digest_json(&crate::closure::policy_to_json(&candidate.provider_policy)) != candidate.provider_policy_digest {
        return Err(ClosureRefusal::InvalidUpdate);
    }
    let lineage = &candidate.supersession_digests;
    if lineage.len() != supersessions.len() {
        assert(supersession_pairs(supersessions@).len() != link_pairs(lineage@).len());
        return Err(ClosureRefusal::InvalidUpdate);
    }
    let mut i: usize = 0;
    while i < supersessions.len()
        invariant
            i <= supersessions@.len(),
            lineage@.len() == supersessions@.len(),
            forall|x: int| 0 <= x < i ==> (#[trigger] supersession_pairs(supersessions@)[x]) == link_pairs(lineage@)[x],
        decreases supersessions.len() - i,
    {
        if !(supersessions[i].id.same(&lineage[i].0) && crate::text::str_eq(
            supersessions[i].content_digest.as_str(),
            lineage[i].1.as_str(),
        )) {
            assert(supersession_pairs(supersessions@)[i as int] != link_pairs(lineage@)[i as int]);
            return Err(ClosureRefusal::InvalidUpdate);
        }
        i = i + 1;
    }
    assert(supersession_pairs(supersessions@) =~= link_pairs(lineage@));
    if current.revision == u64::MAX {
        return Err(ClosureRefusal::InvalidUpdate);
    }
    let mut closed = current;
    closed.revision = closed.revision + 1;
    closed.status = PlanStatus::Closed;
    Ok(closed)
}

/// Checks that the subject captured again while finalizing is the one
/// captured before and the candidate's.
pub fn check_drift(s1: &SubjectRevision, s2: &SubjectRevision, candidate: &ClosureCandidate) -> (r: Result<
    (),
    ClosureRefusal,
>)
    ensures
        r is Ok <==> (s2@ == s1@ && s2@ == candidate.subject@),
        r matches Err(e) ==> e@ == RefusalV::SubjectDrift,
{
    if !s2.same(s1) || !s2.same(&candidate.subject) {
        Err(ClosureRefusal::SubjectDrift)
    } else {
        Ok(())
    }
}

/// The identifier of the first of the first `n` pairs that no observation
/// carries with its digest.
pub open spec fn missing_pair(ov: Seq<ObservationV>, p: Seq<(Seq<char>, Seq<char>)>, n: int) -> Option<Seq<char>>
    decreases n,
{
    if n <= 0 {
        None
    } else if missing_pair(ov, p, n - 1) is Some {
        missing_pair(ov, p, n - 1)
    } else if !has_pair(ov, p[n - 1]) {
        Some(p[n - 1].0)
    } else {
        None
    }
}

/// The Active plan a closure record's candidate was made for: the final
/// plan at the candidate's source revision.
pub open spec fn source_plan(plan: Plan, record: ClosureRecord) -> Plan {
    Plan { revision: record.candidate.source_revision, status: PlanStatus::Active, ..plan }
}

/// What a stored closure record is refused for against its Closed plan,
/// the plan's observations and supersessions, as the reason, in order: the
/// record itself; the lineage; a satisfying observation missing or
/// changed; a changed supersession lineage; a source plan digest that
/// cannot be reproduced; a policy that cannot be registered; an assessment
/// that cannot be reproduced as Complete.
pub open spec fn stored_closure_fault(
    plan: Plan,
    record: ClosureRecord,
    ov: Seq<ObservationV>,
    links: Seq<EvidenceSupersessionRecord>,
) -> Option<Seq<char>> {
    let pairs = obs_pairs(record.candidate.satisfying_observations@);
    let src = source_plan(plan, record);
    let reg = policy_registry(record.candidate.provider_policy@);
    if closure_fault(record, plan) is Some {
        closure_fault(record, plan)
    } else if lineage_fault(ov, links) is Some {
        lineage_fault(ov, links)
    } else if missing_pair(ov, pairs, pairs.len() as int) is Some {
        Some("closure observation "@ + missing_pair(ov, pairs, pairs.len() as int)->0 + " is missing or changed"@)
    } else if supersession_pairs(links) != link_pairs(record.candidate.supersession_digests@) {
        Some("closure supersession lineage is missing or changed"@)
    } else if json_digest(plan_json(src)) != record.candidate.source_plan_digest@ {
        Some("closure source Plan digest cannot be reproduced"@)
    } else if reg is Err {
        Some(crate::evidence::evidence_message(reg->Err_0))
    } else if reassessed(src, record.candidate.subject, reg->Ok_0, ov, links).status != AssessmentStatus::Complete
        || reassessed(src, record.candidate.subject, reg->Ok_0, ov, links) != record.candidate.assessment@ {
        Some("closure assessment cannot be reproduced"@)
    } else {
        None
    }
}

/// Checks a stored closure record against its Closed plan and the plan's
/// evidence (see `stored_closure_fault`); gives the plan back when it holds.
#[verifier::rlimit(40)]
#[verifier::loop_isolation(false)]
pub fn verify_stored_closure(
    plan: Plan,
    record: &ClosureRecord,
    observations: &[EvidenceObservation],
    supersessions: &[EvidenceSupersessionRecord],
) -> (r: Result<Plan, String>)
    ensures
        match stored_closure_fault(plan, *record, obs_views(observations@), supersessions@) {
            Some(m) => r matches Err(e) && e@ == m,
            None => r == Ok::<Plan, String>(plan),
        },
{
    let ghost ov = obs_views(observations@);
    let ghost given_plan = plan;
    record.validate(&plan)?;
    let effective = effective_observations(observations, supersessions)?;
    proof {
        let k = kept(ov, supersessions@, ov.len() as int);
        let perm = choose|perm: Seq<usize>|
            crate::closure::stably_sorted_kept(ov, supersessions@, perm) && obs_views(effective@) == permuted(k, perm);
        crate::sort::lemma_stable_perm(obs_keys(k), perm);
        assert(obs_views(effective@) == effective_spec(ov, supersessions@));
    }
    let sat = &record.candidate.satisfying_observations;
    let ghost pairs = obs_pairs(sat@);
    let mut i: usize = 0;
    while i < sat.len()
        invariant
            i <= sat@.len(),
            pairs == obs_pairs(sat@),
            missing_pair(ov, pairs, i as int) is None,
        decreases sat.len() - i,
    {
        let mut found = false;
        let mut k: usize = 0;
        while k < observations.len() && !found
            invariant
                k <= observations@.len(),
                i < sat@.len(),
                found ==> has_pair(ov, pairs[i as int]),
                !found ==> forall|y: int| 0 <= y < k ==> !((#[trigger] ov[y]).id == sat@[i as int].0@ && ov[y].content_digest
                    == sat@[i as int].1@),
            decreases observations.len() - k,
        {
            if observations[k].id().same(&sat[i].0) && crate::text::str_eq(observations[k].content_digest(), sat[i].1.as_str()) {
                found = true;
                assert(ov[k as int].id == pairs[i as int].0);
            }
            k = k + 1;
        }
        if !found {
            proof {
                assert(missing_pair(ov, pairs, i + 1) == Some(pairs[i as int].0));
                lemma_missing_pair_stable(ov, pairs, i + 1, pairs.len() as int);
            }
            let mut m = owned("closure observation ");
            crate::text::push_str(&mut m, sat[i].0.as_str());
            crate::text::push_str(&mut m, " is missing or changed");
            return Err(m);
        }
        i = i + 1;
    }
    let lineage = &record.candidate.supersession_digests;
    let mut same_lineage = lineage.len() == supersessions.len();
    if !same_lineage {
        assert(supersession_pairs(supersessions@).len() != link_pairs(lineage@).len());
    }
    let mut i: usize = 0;
    while same_lineage && i < supersessions.len()
        invariant
            i <= supersessions@.len(),
            same_lineage ==> lineage@.len() == supersessions@.len(),
            same_lineage ==> forall|x: int| 0 <= x < i ==> (#[trigger] supersession_pairs(supersessions@)[x]) == link_pairs(lineage@)[x],
            !same_lineage ==> supersession_pairs(supersessions@) != link_pairs(lineage@),
        decreases supersessions.len() - i,
    {
        if !(supersessions[i].id.same(&lineage[i].0) && crate::text::str_eq(
            supersessions[i].content_digest.as_str(),
            lineage[i].1.as_str(),
        )) {
            assert(supersession_pairs(supersessions@)[i as int] != link_pairs(lineage@)[i as int]);
            same_lineage = false;
        }
        i = i + 1;
    }
    if !same_lineage {
        return Err(owned("closure supersession lineage is missing or changed"));
    }
    assert(supersession_pairs(supersessions@) =~= link_pairs(lineage@));
    let final_revision = plan.revision;
    let final_status = plan.status;
    let mut source = plan;
    source.revision = record.candidate.source_revision;
    source.status = PlanStatus::Active;
    assert(source == source_plan(given_plan, *record));
    if digest_json(&plan_to_json(&source)) != record.candidate.source_plan_digest {
        return Err(owned("closure source Plan digest cannot be reproduced"));
    }
    let reg = match registry_from_policy(&record.candidate.provider_policy) {
        Ok(reg) => reg,
        Err(e) => {
            return Err(e.message());
        },
    };
    let assessment = crate::assessment::assess_plan(&source, &record.candidate.subject, effective.as_slice(), &reg);
    if assessment.status != AssessmentStatus::Complete || !assessment.same(&record.candidate.assessment) {
        return Err(owned("closure assessment cannot be reproduced"));
    }
    let mut restored = source;
    restored.revision = final_revision;
    restored.status = final_status;
    assert(restored == given_plan);
    Ok(restored)
}

proof fn lemma_missing_pair_stable(ov: Seq<ObservationV>, p: Seq<(Seq<char>, Seq<char>)>, n: int, m: int)
    requires
        0 <= n <= m,
        missing_pair(ov, p, n) is Some,
    ensures
        missing_pair(ov, p, m) == missing_pair(ov, p, n),
    decreases m - n,
{
    if m > n {
        lemma_missing_pair_stable(ov, p, n, m - 1);
    }
}

proof fn lemma_no_missing_pair(ov: Seq<ObservationV>, p: Seq<(Seq<char>, Seq<char>)>, n: int)
    requires
        0 <= n <= p.len(),
        forall|i: int| 0 <= i < p.len() ==> has_pair(ov, #[trigger] p[i]),
    ensures
        missing_pair(ov, p, n) is None,
    decreases n,
{
    if n > 0 {
        lemma_no_missing_pair(ov, p, n - 1);
        assert(has_pair(ov, p[n - 1]));
    }
}

/// A closure the store admits reads back as valid: for an Active plan,
/// once the admitted candidate is sealed into a record against the Closed
/// plan, that record passes verification against the Closed plan and the
/// same observations and supersessions.
pub proof fn lemma_admitted_closure_verifies(
    current: Plan,
    c: ClosureCandidate,
    s1: SubjectRevision,
    ov: Seq<ObservationV>,
    links: Seq<EvidenceSupersessionRecord>,
    record: ClosureRecord,
)
    requires
        current.status == PlanStatus::Active,
        admission_fault(current, c, s1, ov, links) is None,
        record.candidate == c,
        closure_fault(record, Plan { revision: (current.revision + 1) as u64, status: PlanStatus::Closed, ..current }) is None,
    ensures
        stored_closure_fault(
            Plan { revision: (current.revision + 1) as u64, status: PlanStatus::Closed, ..current },
            record,
            ov,
            links,
        ) is None,
{
    let closed = Plan { revision: (current.revision + 1) as u64, status: PlanStatus::Closed, ..current };
    let pairs = obs_pairs(c.satisfying_observations@);
    assert forall|i: int| 0 <= i < pairs.len() implies has_pair(ov, #[trigger] pairs[i]) by {}
    lemma_no_missing_pair(ov, pairs, pairs.len() as int);
    assert(source_plan(closed, record) == current);
    assert(reassessed(current, c.subject, policy_registry(c.provider_policy@)->Ok_0, ov, links) == reassessed(
        current,
        s1,
        policy_registry(c.provider_policy@)->Ok_0,
        ov,
        links,
    ));
}

/// Largest stored plan file, in bytes.
pub const MAX_PLAN_FILE_BYTES: u64 = 16 * 1024 * 1024;

/// Why a stored plan is refused.
#[derive(Debug, Clone, PartialEq, Eq)]
pub enum StoredPlanFault {
    /// The stored bytes are not a plan this store wrote.
    Corrupt(String),
    /// The stored plan breaks a plan rule.
    InvalidPlan(String),
}

/// What a stored plan record is refused for, in order: a file over the
/// size limit, an unknown storage version, an invalid plan, a digest other
/// than its content's, and an identifier other than its directory's.
pub open spec fn stored_plan_fault(
    file_bytes: u64,
    storage_version: u32,
    plan_digest: Seq<char>,
    plan: Plan,
    dir_id: Seq<char>,
) -> Option<(bool, Seq<char>)> {
    if file_bytes > MAX_PLAN_FILE_BYTES {
        Some((true, "plan file exceeds 16 MiB storage limit"@))
    } else if storage_version != 1 {
        Some((true, "unknown storage schema "@ + crate::json::decimal(storage_version as nat)))
    } else if crate::model::plan_error(plan) is Some {
        Some((false, crate::model::validation_message(crate::model::plan_error(plan)->0)))
    } else if json_digest(plan_json(plan)) != plan_digest {
        Some((true, "plan content digest mismatch"@))
    } else if plan.id@ != dir_id {
        Some((true, "stored plan ID differs from directory ID"@))
    } else {
        None
    }
}

/// Checks a stored plan record read from a plan directory (see
/// `stored_plan_fault`; `Corrupt` where its flag is set).
pub fn check_stored_plan(
    file_bytes: u64,
    storage_version: u32,
    plan_digest: &str,
    plan: &Plan,
    dir_id: &crate::identity::PlanId,
) -> (r: Result<(), StoredPlanFault>)
    ensures
        match stored_plan_fault(file_bytes, storage_version, plan_digest@, *plan, dir_id@) {
            Some((corrupt, m)) => match r {
                Err(StoredPlanFault::Corrupt(x)) => corrupt && x@ == m,
                Err(StoredPlanFault::InvalidPlan(x)) => !corrupt && x@ == m,
                Ok(()) => false,
            },
            None => r is Ok,
        },
{
    if file_bytes > MAX_PLAN_FILE_BYTES {
        return Err(StoredPlanFault::Corrupt(owned("plan file exceeds 16 MiB storage limit")));
    }
    if storage_version != 1 {
        let mut m = owned("unknown storage schema ");
        crate::json::write_decimal(storage_version as u64, &mut m);
        return Err(StoredPlanFault::Corrupt(m));
    }
    match plan.validate() {
        Ok(()) => {},
        Err(e) => {
            return Err(StoredPlanFault::InvalidPlan(e.message()));
        },
    }
    let digest = digest_json(&plan_to_json(plan));
    if !crate::text::str_eq(digest.as_str(), plan_digest) {
        return Err(StoredPlanFault::Corrupt(owned("plan content digest mismatch")));
    }
    if !plan.id.same(dir_id) {
        return Err(StoredPlanFault::Corrupt(owned("stored plan ID differs from directory ID")));
    }
    Ok(())
}

/// Options of a repository store.
#[derive(Debug, Clone, Copy, PartialEq, Eq, Structural)]
pub struct StoreOptions {
    /// How long to wait for the cooperative repository lock, in
    /// milliseconds.
    pub lock_timeout_ms: u64,
}

impl Default for StoreOptions {
    /// A five-second lock timeout.
    fn default() -> (r: Self)
        ensures
            r.lock_timeout_ms == 5000,
    {
        StoreOptions { lock_timeout_ms: 5000 }
    }
}

/// Why a plan update is refused.
#[derive(Debug, Clone, Copy, PartialEq, Eq)]
pub enum SwapRefusal {
    /// The update does not keep the plan identity or advance the revision
    /// by exactly one, or a new plan is not a Draft at revision zero.
    InvalidUpdate,
    /// The plan breaks a plan rule.
    Invalid(crate::model::ValidationError),
    /// The stored revision is not the expected one.
    Conflict { expected: u64, current: u64 },
    /// Closed is reached only through guarded closure.
    GuardedClosureRequired,
    /// A plan or item status change that is not allowed.
    InvalidTransition,
}

/// A new plan is valid, a Draft, at revision zero.
pub fn check_new_plan(plan: &Plan) -> (r: Result<(), SwapRefusal>)
    ensures
        match crate::model::plan_error(*plan) {
            Some(e) => r == Err::<(), SwapRefusal>(SwapRefusal::Invalid(e)),
            None => if plan.revision != 0 || plan.status != PlanStatus::Draft {
                r == Err::<(), SwapRefusal>(SwapRefusal::InvalidUpdate)
            } else {
                r is Ok
            },
        },
{
    match plan.validate() {
        Ok(()) => {},
        Err(e) => {
            return Err(SwapRefusal::Invalid(e));
        },
    }
    if plan.revision != 0 || plan.status != PlanStatus::Draft {
        return Err(SwapRefusal::InvalidUpdate);
    }
    Ok(())
}

/// An update keeps the plan's identity, advances the expected revision by
/// exactly one, and is a valid plan.
pub fn check_update_target(id: &crate::identity::PlanId, expected: u64, next: &Plan) -> (r: Result<(), SwapRefusal>)
    ensures
        if next.id@ != id@ || expected == u64::MAX || next.revision != expected + 1 {
            r == Err::<(), SwapRefusal>(SwapRefusal::InvalidUpdate)
        } else {
            match crate::model::plan_error(*next) {
                Some(e) => r == Err::<(), SwapRefusal>(SwapRefusal::Invalid(e)),
                None => r is Ok,
            }
        },
{
    if !next.id.same(id) || expected == u64::MAX || next.revision != expected + 1 {
        return Err(SwapRefusal::InvalidUpdate);
    }
    match next.validate() {
        Ok(()) => Ok(()),
        Err(e) => Err(SwapRefusal::Invalid(e)),
    }
}

/// Some item of the current plan changes to a status it may not move to
/// in the next plan (matching items by identifier).
pub open spec fn item_move_fault(current: Seq<crate::model::PlanItem>, next: Seq<crate::model::PlanItem>) -> bool {
    exists|i: int|
        0 <= i < current.len() && (crate::compat::item_with_id(next, (#[trigger] current[i]).id@) matches Some(n) && n.status
            != current[i].status && !crate::model::item_transition(current[i].status, n.status))
}

/// What refuses replacing the stored plan by the next one, in order: a
/// stored revision other than expected, a plan status change that is not
/// allowed, closing (by an allowed change) without guarded closure, an
/// item status change that is not allowed.
pub open spec fn swap_fault(expected: u64, current: Plan, next: Plan) -> Option<SwapRefusal> {
    if current.revision != expected {
        Some(SwapRefusal::Conflict { expected, current: current.revision })
    } else if next.status != current.status && !crate::model::plan_transition(current.status, next.status) {
        Some(SwapRefusal::InvalidTransition)
    } else if next.status == PlanStatus::Closed && current.status != PlanStatus::Closed {
        Some(SwapRefusal::GuardedClosureRequired)
    } else if item_move_fault(current.items@, next.items@) {
        Some(SwapRefusal::InvalidTransition)
    } else {
        None
    }
}

/// Checks replacing the stored plan by the next one (see `swap_fault`).
pub fn check_swap(expected: u64, current: &Plan, next: &Plan) -> (r: Result<(), SwapRefusal>)
    ensures
        match swap_fault(expected, *current, *next) {
            Some(f) => r == Err::<(), SwapRefusal>(f),
            None => r is Ok,
        },
{
    if current.revision != expected {
        return Err(SwapRefusal::Conflict { expected, current: current.revision });
    }
    if next.status != current.status && !crate::model::plan_transition_allowed(&current.status, &next.status) {
        return Err(SwapRefusal::InvalidTransition);
    }
    if next.status == PlanStatus::Closed && current.status != PlanStatus::Closed {
        return Err(SwapRefusal::GuardedClosureRequired);
    }
    let mut i: usize = 0;
    while i < current.items.len()
        invariant
            i <= current.items@.len(),
            swap_fault(expected, *current, *next) == (if item_move_fault(current.items@, next.items@) {
                Some(SwapRefusal::InvalidTransition)
            } else {
                None::<SwapRefusal>
            }),
            forall|x: int|
                0 <= x < i ==> !(crate::compat::item_with_id(next.items@, (#[trigger] current.items@[x]).id@) matches Some(n)
                    && n.status != current.items@[x].status && !crate::model::item_transition(current.items@[x].status, n.status)),
        decreases current.items.len() - i,
    {
        let old_item = &current.items[i];
        match crate::compat::item_index(&next.items, old_item.id.as_str()) {
            Some(j) => {
                let new_item = &next.items[j];
                if new_item.status != old_item.status && !crate::model::item_transition_allowed(&old_item.status, &new_item.status) {
                    assert(item_move_fault(current.items@, next.items@));
                    return Err(SwapRefusal::InvalidTransition);
                }
            },
            None => {},
        }
        i = i + 1;
    }
    assert(!item_move_fault(current.items@, next.items@));
    Ok(())
}

/// A repository configuration: version one, and a repository identifier
/// of `epr_` and at least one identifier character.
pub open spec fn repository_config_ok(schema_version: u32, repository_id: Seq<char>) -> bool {
    &&& schema_version == 1
    &&& crate::identity::valid_id(repository_id, "epr_"@)
    &&& repository_id.len() > 4
}

/// Checks a repository configuration (see `repository_config_ok`).
pub fn check_repository_config(schema_version: u32, repository_id: &str) -> (r: Result<(), String>)
    ensures
        r is Ok <==> repository_config_ok(schema_version, repository_id@),
        r matches Err(e) ==> e@ == "unknown schema version or empty repository_id"@,
{
    proof {
        reveal_strlit("epr_");
    }
    let ok = schema_version == 1 && crate::identity::parse_id(repository_id, "epr_").is_ok()
        && crate::text::char_count(repository_id) > 4;
    if ok {
        Ok(())
    } else {
        proof {
            if repository_config_ok(schema_version, repository_id@) {
                assert(crate::identity::id_error(repository_id@, "epr_") is None);
            }
        }
        Err(owned("unknown schema version or empty repository_id"))
    }
}

/// What recovery does with a pending closure record.
#[derive(Debug, Clone, Copy, PartialEq, Eq)]
pub enum PendingAction {
    /// The plan was closed: the pending record becomes the final record.
    Promote,
    /// The plan is still its source: the pending record is discarded.
    Discard,
}

/// What recovery decides for a pending closure record beside a stored
/// plan, in order: the plan's recorded digest must be its content's; a
/// final record must not exist as well; a Closed plan at the record's
/// final revision and digest promotes the record once it validates
/// against that plan; a plan that is not Closed, at the candidate's source
/// revision and digest, discards it; anything else is refused.
pub open spec fn pending_outcome(
    plan: Plan,
    stored_digest: Seq<char>,
    record: ClosureRecord,
    final_exists: bool,
) -> Result<PendingAction, Seq<char>> {
    let d = json_digest(plan_json(plan));
    if d != stored_digest {
        Err("plan content digest mismatch during closure recovery"@)
    } else if final_exists {
        Err("both pending and final closure records exist"@)
    } else if plan.status == PlanStatus::Closed && plan.revision == record.final_plan_revision && d
        == record.final_plan_digest@ {
        match crate::closure::closure_fault(record, plan) {
            Some(e) => Err(e),
            None => Ok(PendingAction::Promote),
        }
    } else if plan.status != PlanStatus::Closed && plan.revision == record.candidate.source_revision && d
        == record.candidate.source_plan_digest@ {
        Ok(PendingAction::Discard)
    } else {
        Err("pending closure does not match source or target plan"@)
    }
}

/// Decides the recovery of a pending closure record (see `pending_outcome`).
pub fn pending_action(
    plan: &Plan,
    stored_digest: &str,
    record: &ClosureRecord,
    final_exists: bool,
) -> (r: Result<PendingAction, String>)
    ensures
        match pending_outcome(*plan, stored_digest@, *record, final_exists) {
            Ok(a) => r == Ok::<PendingAction, String>(a),
            Err(e) => r matches Err(m) && m@ == e,
        },
{
    let d = digest_json(&plan_to_json(plan));
    if !crate::text::str_eq(d.as_str(), stored_digest) {
        return Err(owned("plan content digest mismatch during closure recovery"));
    }
    if final_exists {
        return Err(owned("both pending and final closure records exist"));
    }
    if plan.status == PlanStatus::Closed && plan.revision == record.final_plan_revision && crate::text::str_eq(
        d.as_str(),
        record.final_plan_digest.as_str(),
    ) {
        return match record.validate(plan) {
            Ok(()) => Ok(PendingAction::Promote),
            Err(e) => Err(e),
        };
    }
    if plan.status != PlanStatus::Closed && plan.revision == record.candidate.source_revision && crate::text::str_eq(
        d.as_str(),
        record.candidate.source_plan_digest.as_str(),
    ) {
        return Ok(PendingAction::Discard);
    }
    Err(owned("pending closure does not match source or target plan"))
}

} // verus!

verus! {

/// Closure from admission to read-back: where the store admits a candidate
/// for an Active plan, and the candidate is sealed as `ClosureRecord::finalize`
/// seals it against the plan it closes (one revision on, Closed), the
/// record verifies against that Closed plan with the same observations and
/// supersessions.
pub proof fn lemma_sealed_admission_verifies(
    current: Plan,
    c: ClosureCandidate,
    s1: SubjectRevision,
    ov: Seq<ObservationV>,
    links: Seq<EvidenceSupersessionRecord>,
    record: ClosureRecord,
)
    requires
        current.status == PlanStatus::Active,
        admission_fault(current, c, s1, ov, links) is None,
        crate::closure::closes(c, Plan { revision: (current.revision + 1) as u64, status: PlanStatus::Closed, ..current }),
        record.schema_version == 1,
        record.candidate == c,
        record.final_plan_revision == current.revision + 1,
        record.final_plan_digest@ == json_digest(
            plan_json(Plan { revision: (current.revision + 1) as u64, status: PlanStatus::Closed, ..current }),
        ),
        record.content_digest@ == json_digest(crate::closure::record_content(record)),
    ensures
        stored_closure_fault(
            Plan { revision: (current.revision + 1) as u64, status: PlanStatus::Closed, ..current },
            record,
            ov,
            links,
        ) is None,
{
    let closed = Plan { revision: (current.revision + 1) as u64, status: PlanStatus::Closed, ..current };
    crate::closure::lemma_finalized_closure_validates(record, closed);
    lemma_admitted_closure_verifies(current, c, s1, ov, links, record);
}

} // verus!

verus! {

/// How the store treats a name in an evidence ledger directory.
#[derive(Debug, Clone, Copy, PartialEq, Eq, Structural)]
pub enum LedgerEntry {
    /// A staging file of an unfinished write: skipped.
    Staging,
    /// A record file.
    Record,
    /// Anything else: refused.
    Unexpected,
}

/// The kind of a ledger name: staging files begin with `.tmp`, record files
/// end with `.json`.
pub open spec fn entry_kind(name: Seq<char>) -> LedgerEntry {
    if name.len() >= 4 && name.take(4) == ".tmp"@ {
        LedgerEntry::Staging
    } else if name.len() >= 5 && name.skip(name.len() - 5) == ".json"@ {
        LedgerEntry::Record
    } else {
        LedgerEntry::Unexpected
    }
}

fn chars_equal_at(a: &Vec<char>, start: usize, b: &Vec<char>) -> (r: bool)
    requires
        start + b@.len() <= a@.len(),
    ensures
        r == (a@.subrange(start as int, start + b@.len()) == b@),
{
    let mut i: usize = 0;
    while i < b.len()
        invariant
            i <= b@.len(),
            start + b@.len() <= a@.len(),
            start + b.len() <= a.len(),
            forall|k: int| 0 <= k < i ==> a@[start + k] == b@[k],
        decreases b.len() - i,
    {
        if a[start + i] != b[i] {
            assert(a@.subrange(start as int, start + b@.len())[i as int] != b@[i as int]);
            return false;
        }
        i = i + 1;
    }
    assert(a@.subrange(start as int, start + b@.len()) =~= b@);
    true
}

/// The kind of a ledger name (see `entry_kind`).
pub fn ledger_entry(name: &str) -> (r: LedgerEntry)
    ensures
        r == entry_kind(name@),
{
    let c = chars_of(name);
    let tmp = chars_of(".tmp");
    let json = chars_of(".json");
    proof {
        reveal_strlit(".tmp");
        reveal_strlit(".json");
    }
    if c.len() >= 4 && chars_equal_at(&c, 0, &tmp) {
        assert(c@.take(4) =~= c@.subrange(0, 4));
        return LedgerEntry::Staging;
    }
    proof {
        if c@.len() >= 4 {
            assert(c@.take(4) =~= c@.subrange(0, 4));
        }
    }
    if c.len() >= 5 && chars_equal_at(&c, c.len() - 5, &json) {
        assert(c@.skip(c@.len() - 5) =~= c@.subrange(c@.len() - 5, c@.len() as int));
        return LedgerEntry::Record;
    }
    proof {
        if c@.len() >= 5 {
            assert(c@.skip(c@.len() - 5) =~= c@.subrange(c@.len() - 5, c@.len() as int));
        }
    }
    LedgerEntry::Unexpected
}

/// Whether `name` is the record file of the record `id`: the identifier
/// followed by `.json`.
pub fn names_record(name: &str, id: &str) -> (r: bool)
    ensures
        r == (name@ == id@ + ".json"@),
{
    let c = chars_of(name);
    let i = chars_of(id);
    let json = chars_of(".json");
    proof {
        reveal_strlit(".json");
    }
    if c.len() < 5 || c.len() - 5 != i.len() {
        assert(c@.len() != (id@ + ".json"@).len());
        return false;
    }
    let head = chars_equal_at(&c, 0, &i);
    let tail = chars_equal_at(&c, i.len(), &json);
    proof {
        if head && tail {
            assert(c@ =~= id@ + ".json"@) by {
                assert forall|k: int| 0 <= k < c@.len() implies c@[k] == (id@ + ".json"@)[k] by {
                    if k < i@.len() {
                        assert(c@.subrange(0, i@.len() as int)[k] == c@[k]);
                    } else {
                        assert(c@.subrange(i@.len() as int, i@.len() + 5int)[k - i@.len()] == c@[k]);
                    }
                }
            }
        } else if !head {
            assert(c@.subrange(0, i@.len() as int) != i@);
            if c@ == id@ + ".json"@ {
                assert(c@.subrange(0, i@.len() as int) =~= i@);
            }
        } else {
            if c@ == id@ + ".json"@ {
                assert(c@.subrange(i@.len() as int, i@.len() + 5int) =~= ".json"@);
            }
        }
    }
    head && tail
}

/// What a closed or non-closed plan's closure file is found to be.
#[derive(Debug, Clone, Copy, PartialEq, Eq, Structural)]
pub enum ClosureFile {
    /// No file.
    Missing,
    /// A regular file, not a link.
    Regular,
    /// Something else: a link, a directory, or another kind of file.
    Other,
    /// Its metadata could not be read.
    Unreadable,
}

/// What loading a plan does about its closure file.
#[derive(Debug, Clone, PartialEq, Eq)]
pub enum ClosureFileAction {
    /// A pending closure record exists: recovery must run first.
    RecoveryRequired,
    /// The record is read and verified against the Closed plan.
    Verify,
    /// The plan loads as it is.
    Accept,
    /// The store is refused as corrupt, with the reason.
    Corrupt(String),
    /// Reading the file's metadata failed.
    ReadFailed,
}

/// The closure-file table of plan loading: a pending record needs
/// recovery; a Closed plan needs a regular closure file, which is then
/// verified; a plan that is not Closed must have none.
pub fn closure_file_action(pending_exists: bool, closed: bool, file: ClosureFile) -> (r: ClosureFileAction)
    ensures
        pending_exists ==> r == ClosureFileAction::RecoveryRequired,
        !pending_exists && closed && file == ClosureFile::Regular ==> r == ClosureFileAction::Verify,
        !pending_exists && closed && file != ClosureFile::Regular ==> (r matches ClosureFileAction::Corrupt(m) && m@
            == "closed plan has no valid closure record"@),
        !pending_exists && !closed && (file == ClosureFile::Regular || file == ClosureFile::Other) ==> (
        r matches ClosureFileAction::Corrupt(m) && m@ == "closure record exists for non-closed plan"@),
        !pending_exists && !closed && file == ClosureFile::Missing ==> r == ClosureFileAction::Accept,
        !pending_exists && !closed && file == ClosureFile::Unreadable ==> r == ClosureFileAction::ReadFailed,
{
    if pending_exists {
        return ClosureFileAction::RecoveryRequired;
    }
    match (closed, file) {
        (true, ClosureFile::Regular) => ClosureFileAction::Verify,
        (true, _) => ClosureFileAction::Corrupt(owned("closed plan has no valid closure record")),
        (false, ClosureFile::Regular) | (false, ClosureFile::Other) => ClosureFileAction::Corrupt(
            owned("closure record exists for non-closed plan"),
        ),
        (false, ClosureFile::Missing) => ClosureFileAction::Accept,
        (false, ClosureFile::Unreadable) => ClosureFileAction::ReadFailed,
    }
}

/// What appending an observation does.
#[derive(Debug, Clone, Copy, PartialEq, Eq, Structural)]
pub enum AppendAction {
    /// The observation is written.
    Write,
    /// The same observation is already stored: nothing is written.
    AlreadyStored,
}

/// Why an observation is not appended.
#[derive(Debug, Clone, Copy, PartialEq, Eq, Structural)]
pub enum AppendRefusal {
    /// The plan holds as many observations as it may.
    Limit,
    /// Another observation is stored under the same identifier.
    Conflict,
}

/// The canonical bytes of an observation.
pub open spec fn canonical_bytes(o: EvidenceObservation) -> Seq<u8> {
    vstd::utf8::encode_utf8(crate::json::enc(crate::evidence::record_json(o@)))
}

/// Appending an observation to a plan holding `stored_count`: refused at
/// the limit; otherwise written where none is stored under its identifier,
/// idempotent where the stored one has the same canonical bytes, and a
/// conflict where it differs.
pub fn observation_append(
    stored_count: usize,
    existing: Option<&EvidenceObservation>,
    incoming: &EvidenceObservation,
) -> (r: Result<AppendAction, AppendRefusal>)
    ensures
        stored_count >= crate::bounds::MAX_OBSERVATIONS_PER_PLAN ==> r == Err::<AppendAction, AppendRefusal>(
            AppendRefusal::Limit,
        ),
        stored_count < crate::bounds::MAX_OBSERVATIONS_PER_PLAN ==> r == match existing {
            None => Ok::<AppendAction, AppendRefusal>(AppendAction::Write),
            Some(e) => if canonical_bytes(*e) == canonical_bytes(*incoming) {
                Ok(AppendAction::AlreadyStored)
            } else {
                Err(AppendRefusal::Conflict)
            },
        },
{
    if stored_count >= crate::bounds::MAX_OBSERVATIONS_PER_PLAN {
        return Err(AppendRefusal::Limit);
    }
    match existing {
        None => Ok(AppendAction::Write),
        Some(e) => {
            let a = e.canonical_json();
            let b = incoming.canonical_json();
            let mut same = a.len() == b.len();
            let mut i: usize = 0;
            while same && i < a.len()
                invariant
                    i <= a@.len(),
                    same ==> a@.len() == b@.len(),
                    same ==> forall|k: int| 0 <= k < i ==> a@[k] == b@[k],
                    !same ==> a@ != b@,
                decreases a.len() - i,
            {
                if a[i] != b[i] {
                    same = false;
                }
                i = i + 1;
            }
            if same {
                assert(a@ =~= b@);
                Ok(AppendAction::AlreadyStored)
            } else {
                Err(AppendRefusal::Conflict)
            }
        },
    }
}

} // verus!

verus! {

/// A guarded update completes an item only from InProgress: where the
/// swap is accepted and an item that was not Completed is Completed in the
/// next plan, it was InProgress in the stored plan.
pub proof fn lemma_swap_completes_only_in_progress(expected: u64, current: Plan, next: Plan, i: int)
    requires
        swap_fault(expected, current, next) is None,
        0 <= i < current.items@.len(),
        crate::compat::item_with_id(next.items@, current.items@[i].id@) is Some,
        crate::compat::item_with_id(next.items@, current.items@[i].id@)->0.status == crate::model::PlanItemStatus::Completed,
        current.items@[i].status != crate::model::PlanItemStatus::Completed,
    ensures
        current.items@[i].status == crate::model::PlanItemStatus::InProgress,
{
    crate::model::lemma_completion_only_from_in_progress(current.items@[i].status);
    assert(!item_move_fault(current.items@, next.items@));
}

} // verus!

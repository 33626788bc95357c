//! Provider policy files: the providers a policy trusts, admitted one by
//! one into a registry and kept as entries in identifier order. Reading
//! and decoding the file stays with the host program.
use crate::cli::{failure, CliFailure, FailureV};
use crate::closure::ProviderPolicyEntry;
use crate::evidence::{
    descriptor_fault, evidence_message, lookup_provider, DescriptorV, EvidenceErrorV, ProviderDescriptor,
    ProviderRegistry,
};
use crate::identity::EvidenceProviderId;
use crate::model::{EvidenceKind, KindSet};
use crate::sort::{stable_perm, stably_sorted, text_keys, SortKey};
use crate::text::{owned, str_eq};
use vstd::prelude::*;

verus! {

/// Most providers one policy lists.
pub const MAX_POLICY_PROVIDERS: usize = 128;

/// Most kinds one provider of a policy allows.
pub const MAX_POLICY_KINDS: usize = 10;

/// A provider as a policy file lists it.
#[derive(Debug, Clone, PartialEq, Eq)]
pub struct PolicyProvider {
    pub provider_id: EvidenceProviderId,
    pub class: String,
    pub allowed_kinds: Vec<EvidenceKind>,
}

/// An admitted policy: its entries in identifier order, and the registry
/// of its providers in the order the file lists them.
#[derive(Debug)]
pub struct LoadedPolicy {
    pub entries: Vec<ProviderPolicyEntry>,
    pub registry: ProviderRegistry,
}

/// A refusal of a policy file.
pub open spec fn policy_failure(code: Seq<char>, message: Seq<char>, json: bool) -> FailureV {
    FailureV { command: "provider-policy"@, code, message, json }
}

/// Whether the provider at `i` repeats the identity of an earlier one.
pub open spec fn listed_before(ps: Seq<PolicyProvider>, i: int) -> bool {
    exists|j: int| 0 <= j < i && (#[trigger] ps[j]).provider_id@ == ps[i].provider_id@
}

/// Whether no kind occurs twice.
pub open spec fn kinds_distinct(ks: Seq<EvidenceKind>) -> bool {
    forall|a: int, b: int| 0 <= a < b < ks.len() ==> ks[a] != ks[b]
}

/// The descriptor a listed provider registers as.
pub open spec fn descriptor_of(p: PolicyProvider) -> DescriptorV {
    DescriptorV { id: p.provider_id@, class: p.class@, allowed_kinds: p.allowed_kinds@.to_set() }
}

/// The refusal of the provider at `i`, given the registry of those before
/// it: a repeated identity, an allowed-kind list that is empty, longer
/// than `MAX_POLICY_KINDS` or repeats a kind, or a descriptor that the
/// registry refuses.
pub open spec fn provider_fault(ps: Seq<PolicyProvider>, i: int, reg: Seq<DescriptorV>, json: bool) -> Option<FailureV> {
    let p = ps[i];
    if listed_before(ps, i) {
        Some(policy_failure("duplicate_provider"@, p.provider_id@, json))
    } else if p.allowed_kinds@.len() == 0 || p.allowed_kinds@.len() > MAX_POLICY_KINDS {
        Some(policy_failure("invalid_policy"@, "allowed_kinds must contain 1 to 10 values"@, json))
    } else if !kinds_distinct(p.allowed_kinds@) {
        Some(policy_failure("duplicate_kind"@, p.provider_id@, json))
    } else {
        match descriptor_fault(p.class@, p.allowed_kinds@.to_set()) {
            Some(e) => Some(policy_failure("invalid_policy"@, evidence_message(e), json)),
            None => if lookup_provider(reg, p.provider_id@) is Some {
                Some(
                    policy_failure(
                        "invalid_policy"@,
                        evidence_message(EvidenceErrorV::DuplicateProvider(p.provider_id@)),
                        json,
                    ),
                )
            } else {
                None
            },
        }
    }
}

/// The registry of the first `n` providers, or the first refusal.
pub open spec fn policy_scan(ps: Seq<PolicyProvider>, n: int, json: bool) -> Result<Seq<DescriptorV>, FailureV>
    decreases n,
{
    if n <= 0 {
        Ok(Seq::empty())
    } else {
        match policy_scan(ps, n - 1, json) {
            Err(f) => Err(f),
            Ok(reg) => match provider_fault(ps, n - 1, reg, json) {
                Some(f) => Err(f),
                None => Ok(reg.push(descriptor_of(ps[n - 1]))),
            },
        }
    }
}

/// The registry a policy file gives: refused for a schema version other
/// than 1 and for more than `MAX_POLICY_PROVIDERS` providers, otherwise
/// as `policy_scan` says.
pub open spec fn policy_outcome(schema_version: u32, ps: Seq<PolicyProvider>, json: bool) -> Result<Seq<DescriptorV>, FailureV> {
    if schema_version != 1 {
        Err(policy_failure("unknown_schema"@, "provider policy schema_version must be 1"@, json))
    } else if ps.len() > MAX_POLICY_PROVIDERS {
        Err(policy_failure("policy_bound"@, "provider count exceeds 128"@, json))
    } else {
        policy_scan(ps, ps.len() as int, json)
    }
}

/// The identities of listed providers.
pub open spec fn provider_ids(ps: Seq<PolicyProvider>) -> Seq<Seq<char>> {
    Seq::new(ps.len(), |i: int| ps[i].provider_id@)
}

/// `entries` are the listed providers in identifier order.
pub open spec fn entries_in_order(entries: Seq<ProviderPolicyEntry>, ps: Seq<PolicyProvider>) -> bool {
    let perm = stable_perm(text_keys(provider_ids(ps)));
    &&& entries.len() == ps.len()
    &&& forall|k: int| #![trigger entries[k]] 0 <= k < entries.len() ==> {
        let p = ps[perm[k] as int];
        &&& entries[k].provider_id@ == p.provider_id@
        &&& entries[k].class@ == p.class@
        &&& entries[k].allowed_kinds@ == p.allowed_kinds@.to_set()
    }
}

proof fn lemma_scan_err_stable(ps: Seq<PolicyProvider>, n: int, m: int, json: bool)
    requires
        0 <= n <= m,
        policy_scan(ps, n, json) is Err,
    ensures
        policy_scan(ps, m, json) == policy_scan(ps, n, json),
    decreases m - n,
{
    if m > n {
        lemma_scan_err_stable(ps, n, m - 1, json);
    }
}

fn kinds_all_distinct(ks: &Vec<EvidenceKind>) -> (r: bool)
    ensures
        r == kinds_distinct(ks@),
{
    let mut b: usize = 1;
    while b < ks.len()
        invariant
            1 <= b,
            forall|x: int, y: int| 0 <= x < y < b && y < ks@.len() ==> ks@[x] != ks@[y],
        decreases ks.len() - b,
    {
        let mut a: usize = 0;
        while a < b
            invariant
                a <= b < ks@.len(),
                forall|x: int, y: int| 0 <= x < y < b ==> ks@[x] != ks@[y],
                forall|x: int| 0 <= x < a ==> ks@[x] != ks@[b as int],
            decreases b - a,
        {
            if ks[a] == ks[b] {
                return false;
            }
            a = a + 1;
        }
        b = b + 1;
    }
    true
}

fn listed_earlier(ps: &Vec<PolicyProvider>, i: usize) -> (r: bool)
    requires
        i < ps@.len(),
    ensures
        r == listed_before(ps@, i as int),
{
    let mut j: usize = 0;
    while j < i
        invariant
            j <= i < ps@.len(),
            forall|t: int| 0 <= t < j ==> (#[trigger] ps@[t]).provider_id@ != ps@[i as int].provider_id@,
        decreases i - j,
    {
        if str_eq(ps[j].provider_id.as_str(), ps[i].provider_id.as_str()) {
            return true;
        }
        j = j + 1;
    }
    false
}

fn entries_sorted(ps: &Vec<PolicyProvider>) -> (r: Vec<ProviderPolicyEntry>)
    ensures
        entries_in_order(r@, ps@),
{
    let ghost ids = provider_ids(ps@);
    let mut keys: Vec<SortKey> = Vec::new();
    let mut i: usize = 0;
    while i < ps.len()
        invariant
            i <= ps@.len(),
            ids == provider_ids(ps@),
            keys@.len() == i,
            forall|k: int| 0 <= k < i ==> (#[trigger] keys@[k])@ == text_keys(ids)[k],
        decreases ps.len() - i,
    {
        keys.push(SortKey { rank: 0, first: ps[i].provider_id.to_string(), second: String::new() });
        i = i + 1;
    }
    let ghost kv = text_keys(ids);
    assert(crate::sort::key_views(keys@) =~= kv);
    let perm = crate::sort::stable_order(&keys);
    proof {
        crate::sort::lemma_stable_perm(kv, perm@);
    }
    let mut out: Vec<ProviderPolicyEntry> = Vec::new();
    let mut k: usize = 0;
    while k < perm.len()
        invariant
            k <= perm@.len(),
            perm@ == stable_perm(kv),
            stably_sorted(kv, perm@),
            kv == text_keys(ids),
            kv.len() == ps@.len(),
            ids == provider_ids(ps@),
            out@.len() == k,
            forall|x: int| #![trigger out@[x]] 0 <= x < k ==> {
                let p = ps@[perm@[x] as int];
                &&& out@[x].provider_id@ == p.provider_id@
                &&& out@[x].class@ == p.class@
                &&& out@[x].allowed_kinds@ == p.allowed_kinds@.to_set()
            },
        decreases perm.len() - k,
    {
        let p = &ps[perm[k]];
        out.push(
            ProviderPolicyEntry {
                provider_id: p.provider_id.duplicate(),
                class: owned(p.class.as_str()),
                allowed_kinds: KindSet::from_kinds(&p.allowed_kinds),
            },
        );
        k = k + 1;
    }
    out
}

/// Admits the providers of a policy file (see `policy_outcome`): the
/// registry of their descriptors, and the entries in identifier order.
pub fn admit_policy(schema_version: u32, providers: &Vec<PolicyProvider>, json: bool) -> (r: Result<LoadedPolicy, CliFailure>)
    ensures
        match policy_outcome(schema_version, providers@, json) {
            Err(f) => r matches Err(x) && x@ == f,
            Ok(reg) => r matches Ok(l) && l.registry@ == reg && entries_in_order(l.entries@, providers@),
        },
{
    if schema_version != 1 {
        return Err(failure("provider-policy", "unknown_schema", owned("provider policy schema_version must be 1"), json));
    }
    if providers.len() > MAX_POLICY_PROVIDERS {
        return Err(failure("provider-policy", "policy_bound", owned("provider count exceeds 128"), json));
    }
    let ghost ps = providers@;
    let mut reg = ProviderRegistry::new();
    let mut i: usize = 0;
    while i < providers.len()
        invariant
            i <= ps.len(),
            ps == providers@,
            schema_version == 1,
            ps.len() <= MAX_POLICY_PROVIDERS,
            policy_scan(ps, i as int, json) == Ok::<Seq<DescriptorV>, FailureV>(reg@),
        decreases providers.len() - i,
    {
        let p = &providers[i];
        let fault: Option<CliFailure> = if listed_earlier(providers, i) {
            Some(failure("provider-policy", "duplicate_provider", p.provider_id.to_string(), json))
        } else if p.allowed_kinds.len() == 0 || p.allowed_kinds.len() > MAX_POLICY_KINDS {
            Some(failure("provider-policy", "invalid_policy", owned("allowed_kinds must contain 1 to 10 values"), json))
        } else if !kinds_all_distinct(&p.allowed_kinds) {
            Some(failure("provider-policy", "duplicate_kind", p.provider_id.to_string(), json))
        } else {
            match ProviderDescriptor::new(p.provider_id.duplicate(), p.class.as_str(), p.allowed_kinds.as_slice()) {
                Err(e) => Some(failure("provider-policy", "invalid_policy", e.message(), json)),
                Ok(d) => match reg.register_trusted(d) {
                    Ok(()) => None,
                    Err(e) => Some(failure("provider-policy", "invalid_policy", e.message(), json)),
                },
            }
        };
        match fault {
            Some(f) => {
                proof {
                    lemma_scan_err_stable(ps, i + 1, ps.len() as int, json);
                }
                return Err(f);
            },
            None => {},
        }
        i = i + 1;
    }
    Ok(LoadedPolicy { entries: entries_sorted(providers), registry: reg })
}

} // verus!

//! Normalizer for Eggsearch evidence bundles. The host acquires the bundle
//! and submits it as values; nothing here searches or fetches, and content
//! is never recorded: only identities, counts and digests of identities.
use crate::evidence::{EvidenceObservation, EvidenceStatus};
use crate::identity::{valid_id, EvidenceProviderId};
use crate::json::{decimal, write_decimal};
use crate::markdown_text::{join, utf8_len};
use crate::model::{ArtifactRef, EvidenceKind, KindSet};
use crate::spi::{
    adapter_fault, finalize_outcome_in, AdapterDescriptor, Capabilities, NormalizedProviderResult, ObservationContext,
    ProviderClass, SourceTrust, SpiError, SpiErrorV, ADAPTER_SCHEMA_VERSION,
};
use crate::eggwork::{decimal_string, native_id_check, native_id_ok, put};
use crate::text::{chars_of, owned, push_str, str_eq};
use crate::text_map::{entries_map, sorted_entries, TextMap};
use crate::sort::sorted_texts;
use vstd::prelude::*;

verus! {

/// The Eggsearch revision whose bundle shape this normalizer follows.
pub const REVIEWED_EGGSEARCH_SHA: &'static str = "dfa90e050c5434f3346902aeb4074901c58e90d1";
/// Most bytes of a serialized bundle.
pub const MAX_BUNDLE_BYTES: usize = 2_097_152;
/// Most sources of a bundle.
pub const MAX_SOURCES: usize = 200;
/// Most fetched items (and source links) of a bundle.
pub const MAX_FETCHED_ITEMS: usize = 100;
/// Most gaps of a bundle.
pub const MAX_GAPS: usize = 128;

/// Where a source's content comes from.
#[derive(Debug, Clone, Copy, PartialEq, Eq, Structural)]
pub enum TrustLevel {
    ExternalUntrusted,
    LocalTrusted,
    Unknown,
}

/// Where fetched content comes from.
#[derive(Debug, Clone, Copy, PartialEq, Eq, Structural)]
pub enum FetchTrust {
    ExternalUntrusted,
}

/// What a bundle reports as missing or degraded.
#[derive(Debug, Clone, Copy, PartialEq, Eq, Structural)]
pub enum GapKind {
    NoPrimarySourceFound,
    ProviderDegraded,
    NativeRepoFilterNotEnforced,
    SecurityApplicabilityUnknown,
    FetchFailed,
    SourceUnfetched,
    AllResultsExternalUntrusted,
    LocalCheckoutDirty,
    LocalRemoteMismatch,
    LocalGeneratedOrVendorOnly,
    LocalUntrackedFile,
    LocalSourceUnfetched,
    NativeAdvisoryUnavailable,
    SymbolHintNoNativeProvider,
    IssueSearchNoNativeProvider,
    ReleaseSearchNoNativeProvider,
    FreshnessNotEnforced,
    PackageResolutionFailed,
    NoFixedVersionFound,
    NoCounterpointFound,
    NoBenchmarksFound,
    MissingTests,
    MissingExamples,
    MissingManifest,
    MissingChangelog,
    MissingSecurityPolicy,
}

/// A source of a bundle, without its content.
#[derive(Debug, Clone, PartialEq, Eq)]
pub struct Source {
    pub source_id: String,
    pub provider_id: Option<String>,
    pub trust: TrustLevel,
    pub stable: Option<bool>,
}

/// A fetched item of a bundle, without its content.
#[derive(Debug, Clone, PartialEq, Eq)]
pub struct Fetched {
    pub fetch_id: String,
    pub source_id: Option<String>,
    pub fetched: bool,
    pub truncated: bool,
    pub trust: FetchTrust,
    pub line_start: Option<u32>,
    pub line_end: Option<u32>,
}

/// A gap of a bundle, without its message.
#[derive(Debug, Clone, PartialEq, Eq)]
pub struct Gap {
    pub kind: GapKind,
    pub source_id: Option<String>,
    pub provider_id: Option<String>,
    pub affected_source_ids: Vec<String>,
}

/// Why a source and a fetched item are linked.
#[derive(Debug, Clone, Copy, PartialEq, Eq, Structural)]
pub enum LinkReason {
    UrlMatch,
    LocatorMatch,
    Explicit,
    SourceIdMatch,
}

/// A link between a source and a fetched item.
#[derive(Debug, Clone, PartialEq, Eq)]
pub struct Link {
    pub source_id: String,
    pub fetch_id: String,
    pub link_reason: LinkReason,
}

/// Which limits the search reached.
#[derive(Debug, Clone, Copy, PartialEq, Eq, Structural)]
pub struct Limits {
    pub sources_truncated: bool,
    pub fetched_items_truncated: bool,
    pub total_chars_exceeded: bool,
}

/// An evidence bundle: identities, trust labels and limits. Warnings,
/// claims and conflicts are kept as their counts only.
#[derive(Debug, Clone, PartialEq, Eq)]
pub struct Bundle {
    pub bundle_id: String,
    pub created_at: String,
    pub sources: Vec<Source>,
    pub fetched_items: Vec<Fetched>,
    pub source_links: Vec<Link>,
    pub gaps: Vec<Gap>,
    pub limits: Limits,
    pub warning_count: usize,
    pub structured_warning_count: usize,
    pub research_claim_count: Option<usize>,
    pub research_conflict_count: Option<usize>,
}

/// A bundle identifier: one to 128 ASCII letters, digits, `-` or `_`.
pub open spec fn bundle_id_ok(s: Seq<char>) -> bool {
    &&& 0 < s.len() <= 128
    &&& forall|i: int|
        0 <= i < s.len() ==> {
            let c = #[trigger] s[i];
            ('a' <= c && c <= 'z') || ('A' <= c && c <= 'Z') || ('0' <= c && c <= '9') || c == '-' || c == '_'
        }
}

fn bundle_id_check(s: &str) -> (r: bool)
    ensures
        r == bundle_id_ok(s@),
{
    let cs = chars_of(s);
    if cs.len() == 0 || cs.len() > 128 {
        return false;
    }
    let mut i: usize = 0;
    while i < cs.len()
        invariant
            i <= cs@.len(),
            cs@ == s@,
            forall|k: int|
                0 <= k < i ==> {
                    let c = #[trigger] cs@[k];
                    ('a' <= c && c <= 'z') || ('A' <= c && c <= 'Z') || ('0' <= c && c <= '9') || c == '-' || c
                        == '_'
                },
        decreases cs.len() - i,
    {
        let c = cs[i];
        if !(('a' <= c && c <= 'z') || ('A' <= c && c <= 'Z') || ('0' <= c && c <= '9') || c == '-' || c == '_') {
            assert(s@[i as int] == c);
            return false;
        }
        i = i + 1;
    }
    true
}

/// An ASCII digit.
pub open spec fn is_digit(c: char) -> bool {
    '0' <= c && c <= '9'
}

/// A character allowed in a timestamp.
pub open spec fn stamp_char(c: char) -> bool {
    is_digit(c) || c == '-' || c == ':' || c == 'T' || c == 'Z' || c == '+' || c == '.'
}

/// An RFC 3339-shaped timestamp: 20 to 35 characters of digits and
/// `-:TZ+.`, with `YYYY-MM-DDTHH:MM:SS` at the front.
pub open spec fn timestamp_ok(s: Seq<char>) -> bool {
    &&& 20 <= s.len() <= 35
    &&& s[4] == '-' && s[7] == '-' && s[10] == 'T' && s[13] == ':' && s[16] == ':'
    &&& forall|i: int| 0 <= i < s.len() ==> stamp_char(#[trigger] s[i])
    &&& forall|i: int|
        0 <= i < 19 && i != 4 && i != 7 && i != 10 && i != 13 && i != 16 ==> is_digit(#[trigger] s[i])
}

fn timestamp_check(s: &str) -> (r: bool)
    ensures
        r == timestamp_ok(s@),
{
    let cs = chars_of(s);
    if cs.len() < 20 || cs.len() > 35 {
        return false;
    }
    if !(cs[4] == '-' && cs[7] == '-' && cs[10] == 'T' && cs[13] == ':' && cs[16] == ':') {
        return false;
    }
    let mut i: usize = 0;
    while i < cs.len()
        invariant
            i <= cs@.len(),
            cs@ == s@,
            20 <= cs@.len() <= 35,
            forall|k: int| 0 <= k < i ==> stamp_char(#[trigger] cs@[k]),
            forall|k: int|
                0 <= k < i && k < 19 && k != 4 && k != 7 && k != 10 && k != 13 && k != 16 ==> is_digit(
                    #[trigger] cs@[k],
                ),
        decreases cs.len() - i,
    {
        let c = cs[i];
        let digit = '0' <= c && c <= '9';
        if !(digit || c == '-' || c == ':' || c == 'T' || c == 'Z' || c == '+' || c == '.') {
            assert(!stamp_char(s@[i as int]));
            return false;
        }
        if i < 19 && i != 4 && i != 7 && i != 10 && i != 13 && i != 16 && !digit {
            assert(!is_digit(s@[i as int]));
            return false;
        }
        i = i + 1;
    }
    true
}

/// Text of at most 128 bytes, or none.
pub open spec fn opt_bytes_ok(v: Option<String>) -> bool {
    v matches Some(x) ==> utf8_len(x@) <= 128
}

fn opt_bytes_check(v: &Option<String>) -> (r: bool)
    ensures
        r == opt_bytes_ok(*v),
{
    match v {
        Some(x) => {
            let cs = chars_of(x.as_str());
            !crate::markdown_text::utf8_longer_than(&cs, 128)
        },
        None => true,
    }
}

/// The bundle's own fields and collection sizes are within bounds.
pub open spec fn bundle_ok(b: Bundle) -> bool {
    &&& bundle_id_ok(b.bundle_id@)
    &&& timestamp_ok(b.created_at@)
    &&& b.sources@.len() <= MAX_SOURCES
    &&& b.fetched_items@.len() <= MAX_FETCHED_ITEMS
    &&& b.gaps@.len() <= MAX_GAPS
    &&& b.source_links@.len() <= MAX_FETCHED_ITEMS
    &&& b.warning_count <= 256
    &&& b.structured_warning_count <= 256
    &&& (b.research_claim_count matches Some(n) ==> n <= 1024)
    &&& (b.research_conflict_count matches Some(n) ==> n <= 1024)
}

/// A source with a native identifier and a provider of at most 128 bytes.
pub open spec fn source_ok(s: Source) -> bool {
    native_id_ok(s.source_id@) && opt_bytes_ok(s.provider_id)
}

/// The first `n` sources are acceptable and their identifiers distinct.
pub open spec fn sources_ok(s: Seq<Source>, n: int) -> bool {
    forall|k: int|
        0 <= k < n ==> source_ok(#[trigger] s[k]) && (forall|j: int| 0 <= j < k ==> s[j].source_id@ != s[k].source_id@)
}

/// A fetched item with a native identifier and, when both ends are given,
/// a line range that starts at one or later and does not run backwards.
pub open spec fn fetched_ok(f: Fetched) -> bool {
    &&& native_id_ok(f.fetch_id@)
    &&& !(f.line_start matches Some(a) && (f.line_end matches Some(b) && (a == 0 || b < a)))
}

/// A gap whose identifiers are at most 128 bytes and that names at most
/// `MAX_SOURCES` affected sources.
pub open spec fn gap_ok(g: Gap) -> bool {
    &&& opt_bytes_ok(g.source_id)
    &&& opt_bytes_ok(g.provider_id)
    &&& g.affected_source_ids@.len() <= MAX_SOURCES
    &&& forall|i: int| 0 <= i < g.affected_source_ids@.len() ==> utf8_len((#[trigger] g.affected_source_ids@[i])@) <= 128
}

/// The identifiers of the sources.
pub open spec fn source_ids(b: Bundle) -> Seq<Seq<char>> {
    Seq::new(b.sources@.len(), |i: int| b.sources@[i].source_id@)
}

/// The identifiers of the fetched items.
pub open spec fn fetch_ids(b: Bundle) -> Seq<Seq<char>> {
    Seq::new(b.fetched_items@.len(), |i: int| b.fetched_items@[i].fetch_id@)
}

/// A gap names only sources of the bundle.
pub open spec fn gap_known(g: Gap, ids: Seq<Seq<char>>) -> bool {
    &&& (g.source_id matches Some(x) ==> ids.contains(x@))
    &&& forall|i: int| 0 <= i < g.affected_source_ids@.len() ==> ids.contains((#[trigger] g.affected_source_ids@[i])@)
}

/// What validation refuses, in order: the bundle's own fields and sizes,
/// a bad or repeated source, a bad fetched item, a bad gap, and a gap
/// naming an unknown source.
pub open spec fn bundle_fault(b: Bundle) -> Option<Seq<char>> {
    if !bundle_ok(b) {
        Some("invalid or out-of-bounds Eggsearch bundle"@)
    } else if !sources_ok(b.sources@, b.sources@.len() as int) {
        Some("invalid or duplicate Eggsearch source"@)
    } else if exists|i: int| 0 <= i < b.fetched_items@.len() && !fetched_ok(#[trigger] b.fetched_items@[i]) {
        Some("invalid Eggsearch fetched item"@)
    } else if exists|i: int| 0 <= i < b.gaps@.len() && !gap_ok(#[trigger] b.gaps@[i]) {
        Some("invalid Eggsearch gap"@)
    } else if exists|i: int| 0 <= i < b.gaps@.len() && !gap_known(#[trigger] b.gaps@[i], source_ids(b)) {
        Some("Eggsearch gap references unknown source"@)
    } else {
        None
    }
}

fn source_check(s: &Source) -> (r: bool)
    ensures
        r == source_ok(*s),
{
    native_id_check(s.source_id.as_str()) && opt_bytes_check(&s.provider_id)
}

fn fetched_check(f: &Fetched) -> (r: bool)
    ensures
        r == fetched_ok(*f),
{
    if !native_id_check(f.fetch_id.as_str()) {
        return false;
    }
    match (f.line_start, f.line_end) {
        (Some(a), Some(b)) => !(a == 0 || b < a),
        _ => true,
    }
}

fn gap_check(g: &Gap) -> (r: bool)
    ensures
        r == gap_ok(*g),
{
    if !opt_bytes_check(&g.source_id) || !opt_bytes_check(&g.provider_id) || g.affected_source_ids.len()
        > MAX_SOURCES {
        return false;
    }
    let mut i: usize = 0;
    while i < g.affected_source_ids.len()
        invariant
            i <= g.affected_source_ids@.len(),
            forall|k: int| 0 <= k < i ==> utf8_len((#[trigger] g.affected_source_ids@[k])@) <= 128,
        decreases g.affected_source_ids.len() - i,
    {
        let cs = chars_of(g.affected_source_ids[i].as_str());
        if crate::markdown_text::utf8_longer_than(&cs, 128) {
            return false;
        }
        i = i + 1;
    }
    true
}

/// Whether `id` is one of `ids`.
fn listed(ids: &Vec<String>, id: &str) -> (r: bool)
    ensures
        r == crate::compat::strings_of(ids@).contains(id@),
{
    let mut i: usize = 0;
    while i < ids.len()
        invariant
            i <= ids@.len(),
            forall|k: int| 0 <= k < i ==> ids@[k]@ != id@,
        decreases ids.len() - i,
    {
        if str_eq(ids[i].as_str(), id) {
            assert(crate::compat::strings_of(ids@)[i as int] == id@);
            return true;
        }
        i = i + 1;
    }
    false
}

fn gap_known_check(g: &Gap, ids: &Vec<String>) -> (r: bool)
    ensures
        r == gap_known(*g, crate::compat::strings_of(ids@)),
{
    if let Some(x) = &g.source_id {
        if !listed(ids, x.as_str()) {
            return false;
        }
    }
    let mut i: usize = 0;
    while i < g.affected_source_ids.len()
        invariant
            i <= g.affected_source_ids@.len(),
            forall|k: int| 0 <= k < i ==> crate::compat::strings_of(ids@).contains((#[trigger] g.affected_source_ids@[k])@),
        decreases g.affected_source_ids.len() - i,
    {
        if !listed(ids, g.affected_source_ids[i].as_str()) {
            return false;
        }
        i = i + 1;
    }
    true
}

fn source_id_list(b: &Bundle) -> (r: Vec<String>)
    ensures
        crate::compat::strings_of(r@) == source_ids(*b),
{
    let mut out: Vec<String> = Vec::new();
    let mut i: usize = 0;
    while i < b.sources.len()
        invariant
            i <= b.sources@.len(),
            out@.len() == i,
            forall|k: int| 0 <= k < i ==> (#[trigger] out@[k])@ == b.sources@[k].source_id@,
        decreases b.sources.len() - i,
    {
        out.push(b.sources[i].source_id.clone());
        i = i + 1;
    }
    assert(crate::compat::strings_of(out@) =~= source_ids(*b));
    out
}

fn fetch_id_list(b: &Bundle) -> (r: Vec<String>)
    ensures
        crate::compat::strings_of(r@) == fetch_ids(*b),
{
    let mut out: Vec<String> = Vec::new();
    let mut i: usize = 0;
    while i < b.fetched_items.len()
        invariant
            i <= b.fetched_items@.len(),
            out@.len() == i,
            forall|k: int| 0 <= k < i ==> (#[trigger] out@[k])@ == b.fetched_items@[k].fetch_id@,
        decreases b.fetched_items.len() - i,
    {
        out.push(b.fetched_items[i].fetch_id.clone());
        i = i + 1;
    }
    assert(crate::compat::strings_of(out@) =~= fetch_ids(*b));
    out
}

/// Checks a bundle (see `bundle_fault`).
pub fn validate(b: &Bundle) -> (r: Result<(), SpiError>)
    ensures
        match r {
            Ok(()) => bundle_fault(*b) is None,
            Err(e) => bundle_fault(*b) matches Some(m) && e@ == SpiErrorV::Invalid(m),
        },
{
    let own = bundle_id_check(b.bundle_id.as_str()) && timestamp_check(b.created_at.as_str()) && b.sources.len()
        <= MAX_SOURCES && b.fetched_items.len() <= MAX_FETCHED_ITEMS && b.gaps.len() <= MAX_GAPS
        && b.source_links.len() <= MAX_FETCHED_ITEMS && b.warning_count <= 256 && b.structured_warning_count <= 256
        && match b.research_claim_count {
        Some(n) => n <= 1024,
        None => true,
    } && match b.research_conflict_count {
        Some(n) => n <= 1024,
        None => true,
    };
    if !own {
        return Err(SpiError::Invalid("invalid or out-of-bounds Eggsearch bundle"));
    }
    let mut k: usize = 0;
    while k < b.sources.len()
        invariant
            k <= b.sources@.len(),
            bundle_ok(*b),
            sources_ok(b.sources@, k as int),
        decreases b.sources.len() - k,
    {
        let s = &b.sources[k];
        let mut ok = source_check(s);
        let mut j: usize = 0;
        while ok && j < k
            invariant
                j <= k,
                k < b.sources@.len(),
                *s == b.sources@[k as int],
                ok ==> source_ok(*s),
                ok ==> forall|x: int| 0 <= x < j ==> b.sources@[x].source_id@ != s.source_id@,
                !ok ==> !sources_ok(b.sources@, k + 1),
            decreases k - j,
        {
            if str_eq(b.sources[j].source_id.as_str(), s.source_id.as_str()) {
                ok = false;
            }
            j = j + 1;
        }
        if !ok {
            proof {
                if sources_ok(b.sources@, b.sources@.len() as int) {
                    assert forall|x: int| 0 <= x < k + 1 implies source_ok(#[trigger] b.sources@[x]) && (forall|j: int|
                        0 <= j < x ==> b.sources@[j].source_id@ != b.sources@[x].source_id@) by {}
                    assert(sources_ok(b.sources@, k + 1));
                }
            }
            return Err(SpiError::Invalid("invalid or duplicate Eggsearch source"));
        }
        k = k + 1;
    }
    let mut i: usize = 0;
    while i < b.fetched_items.len()
        invariant
            i <= b.fetched_items@.len(),
            bundle_ok(*b),
            sources_ok(b.sources@, b.sources@.len() as int),
            forall|x: int| 0 <= x < i ==> fetched_ok(#[trigger] b.fetched_items@[x]),
        decreases b.fetched_items.len() - i,
    {
        if !fetched_check(&b.fetched_items[i]) {
            return Err(SpiError::Invalid("invalid Eggsearch fetched item"));
        }
        i = i + 1;
    }
    let mut i: usize = 0;
    while i < b.gaps.len()
        invariant
            i <= b.gaps@.len(),
            bundle_ok(*b),
            sources_ok(b.sources@, b.sources@.len() as int),
            forall|x: int| 0 <= x < b.fetched_items@.len() ==> fetched_ok(#[trigger] b.fetched_items@[x]),
            forall|x: int| 0 <= x < i ==> gap_ok(#[trigger] b.gaps@[x]),
        decreases b.gaps.len() - i,
    {
        if !gap_check(&b.gaps[i]) {
            return Err(SpiError::Invalid("invalid Eggsearch gap"));
        }
        i = i + 1;
    }
    let ids = source_id_list(b);
    let mut i: usize = 0;
    while i < b.gaps.len()
        invariant
            i <= b.gaps@.len(),
            bundle_ok(*b),
            sources_ok(b.sources@, b.sources@.len() as int),
            forall|x: int| 0 <= x < b.fetched_items@.len() ==> fetched_ok(#[trigger] b.fetched_items@[x]),
            forall|x: int| 0 <= x < b.gaps@.len() ==> gap_ok(#[trigger] b.gaps@[x]),
            crate::compat::strings_of(ids@) == source_ids(*b),
            forall|x: int| 0 <= x < i ==> gap_known(#[trigger] b.gaps@[x], source_ids(*b)),
        decreases b.gaps.len() - i,
    {
        if !gap_known_check(&b.gaps[i], &ids) {
            return Err(SpiError::Invalid("Eggsearch gap references unknown source"));
        }
        i = i + 1;
    }
    Ok(())
}

/// The capabilities Eggsearch declares: artifacts and research trust
/// metadata.
pub open spec fn eggsearch_caps() -> Capabilities {
    Capabilities {
        supports_in_progress: false,
        artifacts: true,
        verification_binding: false,
        research_trust_metadata: true,
    }
}

/// The Eggsearch adapter: `epp_eggsearch`, a research provider of research
/// evidence, version `1.0`.
pub open spec fn eggsearch_descriptor(d: AdapterDescriptor) -> bool {
    &&& d.schema_version == ADAPTER_SCHEMA_VERSION
    &&& d.provider_id@ == "epp_eggsearch"@
    &&& d.provider_class == ProviderClass::Research
    &&& d.allowed_kinds@ == set![EvidenceKind::Research]
    &&& d.adapter_version@ == "1.0"@
    &&& d.capabilities == eggsearch_caps()
}

/// The Eggsearch adapter descriptor (see `eggsearch_descriptor`); it is
/// valid.
pub fn descriptor() -> (d: AdapterDescriptor)
    ensures
        eggsearch_descriptor(d),
        adapter_fault(d.schema_version, d.adapter_version@, d.allowed_kinds@) is None,
{
    proof {
        reveal_strlit("epp_eggsearch");
        reveal_strlit("epp_");
        reveal_strlit("1.0");
        let s = "epp_eggsearch"@;
        assert(s.take(4) =~= "epp_"@);
        assert forall|i: int| 4 <= i < s.len() implies crate::identity::is_id_char(#[trigger] s[i]) by {
            assert(i == 4 || i == 5 || i == 6 || i == 7 || i == 8 || i == 9 || i == 10 || i == 11 || i == 12);
        }
        assert(valid_id(s, "epp_"@));
    }
    let provider_id = match EvidenceProviderId::new("epp_eggsearch") {
        Ok(p) => p,
        Err(_) => vstd::pervasive::unreached(),
    };
    let kinds = vec![EvidenceKind::Research];
    let allowed_kinds = KindSet::from_kinds(&kinds);
    proof {
        assert(kinds@.to_set() =~= set![EvidenceKind::Research]) by {
            assert(kinds@[0] == EvidenceKind::Research);
        }
        assert(allowed_kinds@.contains(EvidenceKind::Research));
        assert(!"1.0"@.contains('\0')) by {
            if "1.0"@.contains('\0') {
                let k = choose|k: int| 0 <= k < 3 && "1.0"@[k] == '\0';
                assert(k == 0 || k == 1 || k == 2);
            }
        }
    }
    AdapterDescriptor {
        schema_version: ADAPTER_SCHEMA_VERSION,
        provider_id,
        provider_class: ProviderClass::Research,
        allowed_kinds,
        adapter_version: owned("1.0"),
        capabilities: Capabilities {
            supports_in_progress: false,
            artifacts: true,
            verification_binding: false,
            research_trust_metadata: true,
        },
    }
}

/// What is counted among sources.
#[derive(Debug, Clone, Copy, PartialEq, Eq, Structural)]
pub enum SourceTally {
    External,
    Local,
    Unknown,
    Stable,
}

/// A source counts under a tally.
pub open spec fn source_tallied(s: Source, t: SourceTally) -> bool {
    match t {
        SourceTally::External => s.trust == TrustLevel::ExternalUntrusted,
        SourceTally::Local => s.trust == TrustLevel::LocalTrusted,
        SourceTally::Unknown => s.trust == TrustLevel::Unknown,
        SourceTally::Stable => s.stable == Some(true),
    }
}

/// How many of the first `n` sources count under a tally.
pub open spec fn count_sources(s: Seq<Source>, t: SourceTally, n: int) -> nat
    decreases n,
{
    if n <= 0 {
        0
    } else {
        count_sources(s, t, n - 1) + if source_tallied(s[n - 1], t) {
            1nat
        } else {
            0nat
        }
    }
}

/// What is counted among fetched items.
#[derive(Debug, Clone, Copy, PartialEq, Eq, Structural)]
pub enum FetchTally {
    LineRange,
    Succeeded,
    Failed,
    Truncated,
    External,
}

/// A fetched item counts under a tally.
pub open spec fn fetch_tallied(f: Fetched, t: FetchTally) -> bool {
    match t {
        FetchTally::LineRange => f.line_start is Some || f.line_end is Some,
        FetchTally::Succeeded => f.fetched,
        FetchTally::Failed => !f.fetched,
        FetchTally::Truncated => f.truncated,
        FetchTally::External => f.trust == FetchTrust::ExternalUntrusted,
    }
}

/// How many of the first `n` fetched items count under a tally.
pub open spec fn count_fetched(f: Seq<Fetched>, t: FetchTally, n: int) -> nat
    decreases n,
{
    if n <= 0 {
        0
    } else {
        count_fetched(f, t, n - 1) + if fetch_tallied(f[n - 1], t) {
            1nat
        } else {
            0nat
        }
    }
}

/// How many of the first `n` links have a reason.
pub open spec fn count_links(l: Seq<Link>, r: LinkReason, n: int) -> nat
    decreases n,
{
    if n <= 0 {
        0
    } else {
        count_links(l, r, n - 1) + if l[n - 1].link_reason == r {
            1nat
        } else {
            0nat
        }
    }
}

/// How many of the first `n` gaps are of a kind.
pub open spec fn kind_count(g: Seq<Gap>, k: GapKind, n: int) -> nat
    decreases n,
{
    if n <= 0 {
        0
    } else {
        kind_count(g, k, n - 1) + if g[n - 1].kind == k {
            1nat
        } else {
            0nat
        }
    }
}

/// The provider identifiers the first `n` sources name, in source order.
pub open spec fn providers(s: Seq<Source>, n: int) -> Seq<Seq<char>>
    decreases n,
{
    if n <= 0 {
        Seq::empty()
    } else {
        match s[n - 1].provider_id {
            Some(p) => providers(s, n - 1).push(p@),
            None => providers(s, n - 1),
        }
    }
}

/// The digest of identifiers: sorted, joined by NUL.
pub open spec fn ids_digest(ids: Seq<Seq<char>>) -> Seq<char> {
    crate::digest::digest_text(join(sorted_texts(ids), '\0'))
}

/// The metadata code of a gap kind.
pub open spec fn gap_code(k: GapKind) -> Seq<char> {
    match k {
        GapKind::NoPrimarySourceFound => "no_primary_source"@,
        GapKind::ProviderDegraded => "provider_degraded"@,
        GapKind::NativeRepoFilterNotEnforced => "repo_filter_not_enforced"@,
        GapKind::SecurityApplicabilityUnknown => "security_applicability_unknown"@,
        GapKind::FetchFailed => "fetch_failed"@,
        GapKind::SourceUnfetched => "source_unfetched"@,
        GapKind::AllResultsExternalUntrusted => "all_external"@,
        GapKind::LocalCheckoutDirty => "local_dirty"@,
        GapKind::LocalRemoteMismatch => "remote_mismatch"@,
        GapKind::LocalGeneratedOrVendorOnly => "generated_vendor_only"@,
        GapKind::LocalUntrackedFile => "local_untracked"@,
        GapKind::LocalSourceUnfetched => "local_unfetched"@,
        GapKind::NativeAdvisoryUnavailable => "advisory_unavailable"@,
        GapKind::SymbolHintNoNativeProvider => "symbol_provider_missing"@,
        GapKind::IssueSearchNoNativeProvider => "issue_provider_missing"@,
        GapKind::ReleaseSearchNoNativeProvider => "release_provider_missing"@,
        GapKind::FreshnessNotEnforced => "freshness_not_enforced"@,
        GapKind::PackageResolutionFailed => "package_resolution_failed"@,
        GapKind::NoFixedVersionFound => "no_fixed_version"@,
        GapKind::NoCounterpointFound => "no_counterpoint"@,
        GapKind::NoBenchmarksFound => "no_benchmarks"@,
        GapKind::MissingTests => "missing_tests"@,
        GapKind::MissingExamples => "missing_examples"@,
        GapKind::MissingManifest => "missing_manifest"@,
        GapKind::MissingChangelog => "missing_changelog"@,
        GapKind::MissingSecurityPolicy => "missing_security_policy"@,
    }
}

/// The metadata code of a gap kind (see `gap_code`).
pub fn gap_code_of(k: GapKind) -> (r: &'static str)
    ensures
        r@ == gap_code(k),
{
    match k {
        GapKind::NoPrimarySourceFound => "no_primary_source",
        GapKind::ProviderDegraded => "provider_degraded",
        GapKind::NativeRepoFilterNotEnforced => "repo_filter_not_enforced",
        GapKind::SecurityApplicabilityUnknown => "security_applicability_unknown",
        GapKind::FetchFailed => "fetch_failed",
        GapKind::SourceUnfetched => "source_unfetched",
        GapKind::AllResultsExternalUntrusted => "all_external",
        GapKind::LocalCheckoutDirty => "local_dirty",
        GapKind::LocalRemoteMismatch => "remote_mismatch",
        GapKind::LocalGeneratedOrVendorOnly => "generated_vendor_only",
        GapKind::LocalUntrackedFile => "local_untracked",
        GapKind::LocalSourceUnfetched => "local_unfetched",
        GapKind::NativeAdvisoryUnavailable => "advisory_unavailable",
        GapKind::SymbolHintNoNativeProvider => "symbol_provider_missing",
        GapKind::IssueSearchNoNativeProvider => "issue_provider_missing",
        GapKind::ReleaseSearchNoNativeProvider => "release_provider_missing",
        GapKind::FreshnessNotEnforced => "freshness_not_enforced",
        GapKind::PackageResolutionFailed => "package_resolution_failed",
        GapKind::NoFixedVersionFound => "no_fixed_version",
        GapKind::NoCounterpointFound => "no_counterpoint",
        GapKind::NoBenchmarksFound => "no_benchmarks",
        GapKind::MissingTests => "missing_tests",
        GapKind::MissingExamples => "missing_examples",
        GapKind::MissingManifest => "missing_manifest",
        GapKind::MissingChangelog => "missing_changelog",
        GapKind::MissingSecurityPolicy => "missing_security_policy",
    }
}

/// Per-kind gap counts over the first `n` gaps: each gap (re)writes its
/// kind's entry with the count so far, so each kind present ends with its
/// total count.
pub open spec fn gap_entries(m: Map<Seq<char>, Seq<char>>, g: Seq<Gap>, n: int) -> Map<Seq<char>, Seq<char>>
    decreases n,
{
    if n <= 0 {
        m
    } else {
        gap_entries(m, g, n - 1).insert("gap_"@ + gap_code(g[n - 1].kind), decimal(kind_count(g, g[n - 1].kind, n)))
    }
}

/// Some limit was reached or some fetched item was truncated.
pub open spec fn truncated(b: Bundle) -> bool {
    b.limits.sources_truncated || b.limits.fetched_items_truncated || b.limits.total_chars_exceeded || count_fetched(
        b.fetched_items@,
        FetchTally::Truncated,
        b.fetched_items@.len() as int,
    ) > 0
}

/// The status of bundle production: no source is unavailable; truncation,
/// a gap or an unfetched item is inconclusive; otherwise passed. Trust
/// labels of content never change it.
pub open spec fn search_status(b: Bundle) -> EvidenceStatus {
    if b.sources@.len() == 0 {
        EvidenceStatus::Unavailable
    } else if truncated(b) || b.gaps@.len() > 0 || count_fetched(
        b.fetched_items@,
        FetchTally::Failed,
        b.fetched_items@.len() as int,
    ) > 0 {
        EvidenceStatus::Inconclusive
    } else {
        EvidenceStatus::Passed
    }
}

/// A count, zero when absent.
pub open spec fn opt_count(n: Option<usize>) -> nat {
    match n {
        Some(x) => x as nat,
        None => 0,
    }
}

/// Identity and size entries.
pub open spec fn size_entries(m: Map<Seq<char>, Seq<char>>, b: Bundle) -> Map<Seq<char>, Seq<char>> {
    m.insert("bundle_id"@, b.bundle_id@).insert("created_at"@, b.created_at@).insert(
        "source_count"@,
        decimal(b.sources@.len()),
    ).insert("fetched_count"@, decimal(b.fetched_items@.len())).insert("gap_count"@, decimal(b.gaps@.len())).insert(
        "warning_count"@,
        decimal(b.warning_count as nat),
    ).insert("structured_warning_count"@, decimal(b.structured_warning_count as nat)).insert(
        "research_claim_count"@,
        decimal(opt_count(b.research_claim_count)),
    ).insert("research_conflict_count"@, decimal(opt_count(b.research_conflict_count))).insert(
        "source_link_count"@,
        decimal(b.source_links@.len()),
    )
}

/// Digests of the source, fetch and provider identifiers.
pub open spec fn digest_entries(m: Map<Seq<char>, Seq<char>>, b: Bundle) -> Map<Seq<char>, Seq<char>> {
    m.insert("source_ids_digest"@, ids_digest(source_ids(b))).insert("fetch_ids_digest"@, ids_digest(fetch_ids(b))).insert(
        "provider_ids_digest"@,
        ids_digest(providers(b.sources@, b.sources@.len() as int)),
    )
}

/// Counts of line ranges, link reasons, trust labels, stability and fetch
/// outcomes.
pub open spec fn tally_entries(m: Map<Seq<char>, Seq<char>>, b: Bundle) -> Map<Seq<char>, Seq<char>> {
    let s = b.sources@;
    let f = b.fetched_items@;
    let l = b.source_links@;
    m.insert("line_range_count"@, decimal(count_fetched(f, FetchTally::LineRange, f.len() as int))).insert(
        "link_url_match_count"@,
        decimal(count_links(l, LinkReason::UrlMatch, l.len() as int)),
    ).insert("link_locator_match_count"@, decimal(count_links(l, LinkReason::LocatorMatch, l.len() as int))).insert(
        "link_explicit_count"@,
        decimal(count_links(l, LinkReason::Explicit, l.len() as int)),
    ).insert("link_source_id_match_count"@, decimal(count_links(l, LinkReason::SourceIdMatch, l.len() as int))).insert(
        "trust_external_count"@,
        decimal(count_sources(s, SourceTally::External, s.len() as int)),
    ).insert("trust_local_count"@, decimal(count_sources(s, SourceTally::Local, s.len() as int))).insert(
        "trust_unknown_count"@,
        decimal(count_sources(s, SourceTally::Unknown, s.len() as int)),
    ).insert("stable_source_count"@, decimal(count_sources(s, SourceTally::Stable, s.len() as int))).insert(
        "fetched_success_count"@,
        decimal(count_fetched(f, FetchTally::Succeeded, f.len() as int)),
    ).insert("fetched_failure_count"@, decimal(count_fetched(f, FetchTally::Failed, f.len() as int))).insert(
        "truncated_fetch_count"@,
        decimal(count_fetched(f, FetchTally::Truncated, f.len() as int)),
    ).insert("external_fetch_count"@, decimal(count_fetched(f, FetchTally::External, f.len() as int)))
}

/// The metadata of a bundle: identities and sizes, identifier digests,
/// tallies, per-kind gap counts and whether it was truncated. No content,
/// URL, title or message is recorded.
pub open spec fn search_metadata(b: Bundle) -> Map<Seq<char>, Seq<char>> {
    let m = tally_entries(digest_entries(size_entries(Map::empty(), b), b), b);
    gap_entries(m, b.gaps@, b.gaps@.len() as int).insert(
        "bundle_truncated"@,
        if truncated(b) {
            "true"@
        } else {
            "false"@
        },
    )
}

/// The bundle handle an observation carries.
pub open spec fn handle_matches(r: ArtifactRef, b: Bundle) -> bool {
    &&& r.reference@ == "eggsearch:bundle:"@ + b.bundle_id@
    &&& r.digest is None
    &&& r.media_type matches Some(t) && t@ == "application/vnd.eggsearch.evidence-bundle+json"@
}

/// A fetched item names a source the bundle does not have.
pub open spec fn fetch_unknown(f: Fetched, ids: Seq<Seq<char>>) -> bool {
    f.source_id matches Some(x) && !ids.contains(x@)
}

/// A link names a known source and a known fetched item.
pub open spec fn link_known(l: Link, sources: Seq<Seq<char>>, fetches: Seq<Seq<char>>) -> bool {
    sources.contains(l.source_id@) && fetches.contains(l.fetch_id@)
}

/// What normalization refuses, in order: the bundle (see `bundle_fault`),
/// a kind other than research, a fetched item of an unknown source, a
/// repeated fetch identifier, a link with an unknown end.
pub open spec fn normalize_fault(b: Bundle, c: ObservationContext) -> Option<SpiErrorV> {
    if bundle_fault(b) is Some {
        Some(SpiErrorV::Invalid(bundle_fault(b)->0))
    } else if c.requested_kind != EvidenceKind::Research {
        Some(SpiErrorV::UnsupportedKind)
    } else if exists|i: int| 0 <= i < b.fetched_items@.len() && fetch_unknown(#[trigger] b.fetched_items@[i], source_ids(b)) {
        Some(SpiErrorV::Invalid("Eggsearch fetch references unknown source"@))
    } else if !fetch_ids(b).no_duplicates() {
        Some(SpiErrorV::Invalid("duplicate Eggsearch fetch ID"@))
    } else if exists|i: int|
        0 <= i < b.source_links@.len() && !link_known(#[trigger] b.source_links@[i], source_ids(b), fetch_ids(b)) {
        Some(SpiErrorV::Invalid("Eggsearch link references unknown identity"@))
    } else {
        None
    }
}

/// The normalized result normalization finalizes: marked external and
/// untrusted, whatever the sources' own labels say.
pub open spec fn search_result(nr: NormalizedProviderResult, b: Bundle) -> bool {
    &&& nr.status == search_status(b)
    &&& nr.source_trust == Some(SourceTrust::ExternalUntrusted)
    &&& nr.result_metadata@ == sorted_entries(search_metadata(b))
    &&& nr.artifacts@.len() == 1
    &&& handle_matches(nr.artifacts@[0], b)
}

fn source_tally_check(s: &Source, t: SourceTally) -> (r: bool)
    ensures
        r == source_tallied(*s, t),
{
    match t {
        SourceTally::External => s.trust == TrustLevel::ExternalUntrusted,
        SourceTally::Local => s.trust == TrustLevel::LocalTrusted,
        SourceTally::Unknown => s.trust == TrustLevel::Unknown,
        SourceTally::Stable => match s.stable {
            Some(true) => true,
            _ => false,
        },
    }
}

fn source_count(s: &Vec<Source>, t: SourceTally) -> (c: usize)
    ensures
        c == count_sources(s@, t, s@.len() as int),
{
    let mut c: usize = 0;
    let mut i: usize = 0;
    while i < s.len()
        invariant
            i <= s@.len(),
            c == count_sources(s@, t, i as int),
            c <= i,
        decreases s.len() - i,
    {
        if source_tally_check(&s[i], t) {
            c = c + 1;
        }
        i = i + 1;
    }
    c
}

fn fetch_tally_check(f: &Fetched, t: FetchTally) -> (r: bool)
    ensures
        r == fetch_tallied(*f, t),
{
    match t {
        FetchTally::LineRange => f.line_start.is_some() || f.line_end.is_some(),
        FetchTally::Succeeded => f.fetched,
        FetchTally::Failed => !f.fetched,
        FetchTally::Truncated => f.truncated,
        FetchTally::External => f.trust == FetchTrust::ExternalUntrusted,
    }
}

fn fetch_count(f: &Vec<Fetched>, t: FetchTally) -> (c: usize)
    ensures
        c == count_fetched(f@, t, f@.len() as int),
{
    let mut c: usize = 0;
    let mut i: usize = 0;
    while i < f.len()
        invariant
            i <= f@.len(),
            c == count_fetched(f@, t, i as int),
            c <= i,
        decreases f.len() - i,
    {
        if fetch_tally_check(&f[i], t) {
            c = c + 1;
        }
        i = i + 1;
    }
    c
}

fn link_count(l: &Vec<Link>, r: LinkReason) -> (c: usize)
    ensures
        c == count_links(l@, r, l@.len() as int),
{
    let mut c: usize = 0;
    let mut i: usize = 0;
    while i < l.len()
        invariant
            i <= l@.len(),
            c == count_links(l@, r, i as int),
            c <= i,
        decreases l.len() - i,
    {
        if l[i].link_reason == r {
            c = c + 1;
        }
        i = i + 1;
    }
    c
}

fn provider_list(s: &Vec<Source>) -> (r: Vec<String>)
    ensures
        crate::compat::strings_of(r@) == providers(s@, s@.len() as int),
{
    let mut out: Vec<String> = Vec::new();
    let mut i: usize = 0;
    while i < s.len()
        invariant
            i <= s@.len(),
            crate::compat::strings_of(out@) == providers(s@, i as int),
        decreases s.len() - i,
    {
        if let Some(p) = &s[i].provider_id {
            out.push(p.clone());
            assert(crate::compat::strings_of(out@) =~= providers(s@, i as int).push(p@));
        }
        i = i + 1;
    }
    out
}

fn ids_digest_of(ids: &Vec<String>) -> (r: String)
    ensures
        r@ == ids_digest(crate::compat::strings_of(ids@)),
{
    let ghost v = crate::compat::strings_of(ids@);
    let mut keys: Vec<crate::sort::SortKey> = Vec::new();
    let mut i: usize = 0;
    while i < ids.len()
        invariant
            i <= ids@.len(),
            v == crate::compat::strings_of(ids@),
            keys@.len() == i,
            forall|k: int| 0 <= k < i ==> (#[trigger] keys@[k])@ == (crate::sort::KeyV { rank: 0, first: v[k], second: Seq::empty() }),
        decreases ids.len() - i,
    {
        keys.push(crate::sort::SortKey { rank: 0, first: ids[i].clone(), second: String::new() });
        i = i + 1;
    }
    let ghost kv = crate::sort::text_keys(v);
    assert(crate::sort::key_views(keys@) =~= kv);
    let perm = crate::sort::stable_order(&keys);
    proof {
        crate::sort::lemma_stable_perm(kv, perm@);
    }
    let mut parts: Vec<Vec<char>> = Vec::new();
    let mut k: usize = 0;
    while k < perm.len()
        invariant
            k <= perm@.len(),
            perm@ == crate::sort::stable_perm(kv),
            crate::sort::stably_sorted(kv, perm@),
            kv.len() == ids@.len(),
            v == crate::compat::strings_of(ids@),
            parts@.len() == k,
            forall|x: int| 0 <= x < k ==> (#[trigger] parts@[x])@ == v[perm@[x] as int],
        decreases perm.len() - k,
    {
        let j = perm[k];
        parts.push(chars_of(ids[j].as_str()));
        k = k + 1;
    }
    assert(crate::markdown_text::views(parts@) =~= sorted_texts(v));
    let joined = crate::markdown_text::join_chars(&parts, '\0');
    let text = crate::text::string_of(&joined);
    crate::digest::digest_of_text(text.as_str())
}

fn size_part(m: &mut TextMap, b: &Bundle)
    ensures
        entries_map(final(m)@) == size_entries(entries_map(old(m)@), *b),
{
    put(m, "bundle_id", b.bundle_id.clone());
    put(m, "created_at", b.created_at.clone());
    put(m, "source_count", decimal_string(b.sources.len() as u64));
    put(m, "fetched_count", decimal_string(b.fetched_items.len() as u64));
    put(m, "gap_count", decimal_string(b.gaps.len() as u64));
    put(m, "warning_count", decimal_string(b.warning_count as u64));
    put(m, "structured_warning_count", decimal_string(b.structured_warning_count as u64));
    let claims: u64 = match b.research_claim_count {
        Some(n) => n as u64,
        None => 0,
    };
    put(m, "research_claim_count", decimal_string(claims));
    let conflicts: u64 = match b.research_conflict_count {
        Some(n) => n as u64,
        None => 0,
    };
    put(m, "research_conflict_count", decimal_string(conflicts));
    put(m, "source_link_count", decimal_string(b.source_links.len() as u64));
}

fn digest_part(m: &mut TextMap, b: &Bundle)
    ensures
        entries_map(final(m)@) == digest_entries(entries_map(old(m)@), *b),
{
    let sources = source_id_list(b);
    put(m, "source_ids_digest", ids_digest_of(&sources));
    let fetches = fetch_id_list(b);
    put(m, "fetch_ids_digest", ids_digest_of(&fetches));
    let provs = provider_list(&b.sources);
    put(m, "provider_ids_digest", ids_digest_of(&provs));
}

fn tally_part(m: &mut TextMap, b: &Bundle)
    ensures
        entries_map(final(m)@) == tally_entries(entries_map(old(m)@), *b),
{
    put(m, "line_range_count", decimal_string(fetch_count(&b.fetched_items, FetchTally::LineRange) as u64));
    put(m, "link_url_match_count", decimal_string(link_count(&b.source_links, LinkReason::UrlMatch) as u64));
    put(m, "link_locator_match_count", decimal_string(link_count(&b.source_links, LinkReason::LocatorMatch) as u64));
    put(m, "link_explicit_count", decimal_string(link_count(&b.source_links, LinkReason::Explicit) as u64));
    put(m, "link_source_id_match_count", decimal_string(link_count(&b.source_links, LinkReason::SourceIdMatch) as u64));
    put(m, "trust_external_count", decimal_string(source_count(&b.sources, SourceTally::External) as u64));
    put(m, "trust_local_count", decimal_string(source_count(&b.sources, SourceTally::Local) as u64));
    put(m, "trust_unknown_count", decimal_string(source_count(&b.sources, SourceTally::Unknown) as u64));
    put(m, "stable_source_count", decimal_string(source_count(&b.sources, SourceTally::Stable) as u64));
    put(m, "fetched_success_count", decimal_string(fetch_count(&b.fetched_items, FetchTally::Succeeded) as u64));
    put(m, "fetched_failure_count", decimal_string(fetch_count(&b.fetched_items, FetchTally::Failed) as u64));
    put(m, "truncated_fetch_count", decimal_string(fetch_count(&b.fetched_items, FetchTally::Truncated) as u64));
    put(m, "external_fetch_count", decimal_string(fetch_count(&b.fetched_items, FetchTally::External) as u64));
}

fn gap_part(m: &mut TextMap, g: &Vec<Gap>)
    ensures
        entries_map(final(m)@) == gap_entries(entries_map(old(m)@), g@, g@.len() as int),
{
    let ghost m0 = entries_map(old(m)@);
    let mut i: usize = 0;
    while i < g.len()
        invariant
            i <= g@.len(),
            entries_map(m@) == gap_entries(m0, g@, i as int),
        decreases g.len() - i,
    {
        let kind = g[i].kind;
        let mut c: usize = 0;
        let mut j: usize = 0;
        let end = i + 1;
        while j < end
            invariant
                j <= end,
                end == i + 1,
                i < g@.len(),
                kind == g@[i as int].kind,
                c == kind_count(g@, kind, j as int),
                c <= j,
            decreases end - j,
        {
            if g[j].kind == kind {
                c = c + 1;
            }
            j = j + 1;
        }
        let mut key = owned("gap_");
        push_str(&mut key, gap_code_of(kind));
        proof {
            reveal_strlit("gap_");
        }
        let _ = m.insert(key, decimal_string(c as u64));
        i = i + 1;
    }
}

fn status_of(b: &Bundle, truncated_bundle: bool) -> (r: EvidenceStatus)
    requires
        truncated_bundle == truncated(*b),
    ensures
        r == search_status(*b),
{
    if b.sources.len() == 0 {
        EvidenceStatus::Unavailable
    } else if truncated_bundle || b.gaps.len() > 0 || fetch_count(&b.fetched_items, FetchTally::Failed) > 0 {
        EvidenceStatus::Inconclusive
    } else {
        EvidenceStatus::Passed
    }
}

/// Normalizes a bundle into a research observation of the `epp_eggsearch`
/// provider: refused as `normalize_fault` says, otherwise finalized from
/// the status of `search_status`, the metadata of `search_metadata`, the
/// external-untrusted marker and one bundle handle. The marker records
/// where the content comes from and the status only how the bundle was
/// produced, so a complete bundle is Passed while its marker stays
/// external and untrusted.
pub fn normalize(bundle: &Bundle, context: &ObservationContext) -> (r: Result<EvidenceObservation, SpiError>)
    ensures
        match normalize_fault(*bundle, *context) {
            Some(e) => r matches Err(x) && x@ == e,
            None => exists|d: AdapterDescriptor, nr: NormalizedProviderResult|
                #![trigger finalize_outcome_in(d, *context, nr, r, false)]
                {
                    &&& eggsearch_descriptor(d)
                    &&& search_result(nr, *bundle)
                    &&& finalize_outcome_in(d, *context, nr, r, false)
                },
        },
{
    match validate(bundle) {
        Ok(()) => {},
        Err(e) => {
            return Err(e);
        },
    }
    if context.requested_kind != EvidenceKind::Research {
        return Err(SpiError::UnsupportedKind);
    }
    let sources = source_id_list(bundle);
    let mut i: usize = 0;
    while i < bundle.fetched_items.len()
        invariant
            i <= bundle.fetched_items@.len(),
            bundle_fault(*bundle) is None,
            context.requested_kind == EvidenceKind::Research,
            crate::compat::strings_of(sources@) == source_ids(*bundle),
            forall|x: int| 0 <= x < i ==> !fetch_unknown(#[trigger] bundle.fetched_items@[x], source_ids(*bundle)),
        decreases bundle.fetched_items.len() - i,
    {
        if let Some(x) = &bundle.fetched_items[i].source_id {
            if !listed(&sources, x.as_str()) {
                assert(fetch_unknown(bundle.fetched_items@[i as int], source_ids(*bundle)));
                return Err(SpiError::Invalid("Eggsearch fetch references unknown source"));
            }
        }
        i = i + 1;
    }
    let fetches = fetch_id_list(bundle);
    let ghost fv = fetch_ids(*bundle);
    let mut i: usize = 0;
    while i < fetches.len()
        invariant
            i <= fetches@.len(),
            bundle_fault(*bundle) is None,
            context.requested_kind == EvidenceKind::Research,
            forall|x: int| 0 <= x < bundle.fetched_items@.len() ==> !fetch_unknown(#[trigger] bundle.fetched_items@[x], source_ids(*bundle)),
            fv == fetch_ids(*bundle),
            crate::compat::strings_of(fetches@) == fv,
            forall|a: int, c: int| 0 <= a < c < i ==> fv[a] != fv[c],
        decreases fetches.len() - i,
    {
        let mut j: usize = 0;
        while j < i
            invariant
                j <= i,
                i < fetches@.len(),
                bundle_fault(*bundle) is None,
                context.requested_kind == EvidenceKind::Research,
                forall|x: int| 0 <= x < bundle.fetched_items@.len() ==> !fetch_unknown(#[trigger] bundle.fetched_items@[x], source_ids(*bundle)),
                fv == fetch_ids(*bundle),
                crate::compat::strings_of(fetches@) == fv,
                forall|a: int| 0 <= a < j ==> fv[a] != fv[i as int],
            decreases i - j,
        {
            if str_eq(fetches[j].as_str(), fetches[i].as_str()) {
                assert(fv[j as int] == fv[i as int]);
                assert(!fv.no_duplicates());
                return Err(SpiError::Invalid("duplicate Eggsearch fetch ID"));
            }
            j = j + 1;
        }
        i = i + 1;
    }
    assert(fv.no_duplicates());
    let mut i: usize = 0;
    while i < bundle.source_links.len()
        invariant
            i <= bundle.source_links@.len(),
            bundle_fault(*bundle) is None,
            context.requested_kind == EvidenceKind::Research,
            forall|x: int| 0 <= x < bundle.fetched_items@.len() ==> !fetch_unknown(#[trigger] bundle.fetched_items@[x], source_ids(*bundle)),
            fetch_ids(*bundle).no_duplicates(),
            crate::compat::strings_of(sources@) == source_ids(*bundle),
            crate::compat::strings_of(fetches@) == fetch_ids(*bundle),
            forall|x: int| 0 <= x < i ==> link_known(#[trigger] bundle.source_links@[x], source_ids(*bundle), fetch_ids(*bundle)),
        decreases bundle.source_links.len() - i,
    {
        let l = &bundle.source_links[i];
        if !listed(&sources, l.source_id.as_str()) || !listed(&fetches, l.fetch_id.as_str()) {
            assert(!link_known(bundle.source_links@[i as int], source_ids(*bundle), fetch_ids(*bundle)));
            return Err(SpiError::Invalid("Eggsearch link references unknown identity"));
        }
        i = i + 1;
    }
    let mut metadata = TextMap::new();
    proof {
        assert(entries_map(Seq::<(Seq<char>, Seq<char>)>::empty()) =~= Map::<Seq<char>, Seq<char>>::empty());
    }
    size_part(&mut metadata, bundle);
    digest_part(&mut metadata, bundle);
    tally_part(&mut metadata, bundle);
    gap_part(&mut metadata, &bundle.gaps);
    let truncated_bundle = bundle.limits.sources_truncated || bundle.limits.fetched_items_truncated
        || bundle.limits.total_chars_exceeded || fetch_count(&bundle.fetched_items, FetchTally::Truncated) > 0;
    proof {
        reveal_strlit("true");
        reveal_strlit("false");
    }
    let flag = if truncated_bundle {
        owned("true")
    } else {
        owned("false")
    };
    put(&mut metadata, "bundle_truncated", flag);
    let _ = metadata.entries();
    proof {
        crate::text_map::lemma_view_is_sorted_entries(metadata@);
    }
    proof {
        reveal_strlit("eggsearch:bundle:");
        reveal_strlit("application/vnd.eggsearch.evidence-bundle+json");
    }
    let mut reference = owned("eggsearch:bundle:");
    push_str(&mut reference, bundle.bundle_id.as_str());
    let handle = ArtifactRef {
        reference,
        digest: None,
        media_type: Some(owned("application/vnd.eggsearch.evidence-bundle+json")),
    };
    let descriptor = descriptor();
    let result = NormalizedProviderResult {
        status: status_of(bundle, truncated_bundle),
        source_trust: Some(SourceTrust::ExternalUntrusted),
        result_metadata: metadata,
        artifacts: vec![handle],
    };
    let r = crate::spi::finalize_checked(&descriptor, context, &result, false);
    assert(eggsearch_descriptor(descriptor) && search_result(result, *bundle) && finalize_outcome_in(
        descriptor,
        *context,
        result,
        r,
        false,
    ));
    r
}

/// Admits a serialized bundle of `len` bytes.
pub fn check_bundle_size(len: usize) -> (r: Result<(), SpiError>)
    ensures
        r is Ok <==> len <= MAX_BUNDLE_BYTES,
        r matches Err(e) ==> e@ == SpiErrorV::Invalid("Eggsearch bundle exceeds byte limit"@),
{
    if len > MAX_BUNDLE_BYTES {
        Err(SpiError::Invalid("Eggsearch bundle exceeds byte limit"))
    } else {
        Ok(())
    }
}

/// An Eggsearch observation takes its status from the bundle alone and
/// always records the external-untrusted marker, whatever trust labels the
/// bundle's sources carry.
pub proof fn lemma_search_status_and_marker(
    b: Bundle,
    d: AdapterDescriptor,
    c: ObservationContext,
    nr: NormalizedProviderResult,
    o: EvidenceObservation,
)
    requires
        search_result(nr, b),
        finalize_outcome_in(d, c, nr, Ok(o), false),
    ensures
        o@.status == search_status(b),
        crate::spi::with_trust(entries_map(c.metadata@), nr.source_trust)["source_trust"@] == "external_untrusted"@,
{
}

} // verus!

verus! {

proof fn lemma_count_fetched_positive(f: Seq<Fetched>, t: FetchTally, n: int)
    requires
        0 <= n <= f.len(),
    ensures
        count_fetched(f, t, n) > 0 <==> exists|i: int| 0 <= i < n && fetch_tallied(#[trigger] f[i], t),
    decreases n,
{
    if n > 0 {
        lemma_count_fetched_positive(f, t, n - 1);
        if exists|i: int| 0 <= i < n && fetch_tallied(#[trigger] f[i], t) {
            let i = choose|i: int| 0 <= i < n && fetch_tallied(#[trigger] f[i], t);
            if i < n - 1 {
                assert(exists|j: int| 0 <= j < n - 1 && fetch_tallied(#[trigger] f[j], t));
            }
        }
    }
}

/// A bundle's observation is Passed exactly when the bundle has a source,
/// no gap, no truncation of any kind, and every fetched item was fetched;
/// with a source, an item whose fetch failed makes it Inconclusive.
pub proof fn lemma_search_passed_exactly(b: Bundle)
    ensures
        search_status(b) == EvidenceStatus::Passed <==> {
            &&& b.sources@.len() > 0
            &&& b.gaps@.len() == 0
            &&& !b.limits.sources_truncated
            &&& !b.limits.fetched_items_truncated
            &&& !b.limits.total_chars_exceeded
            &&& forall|i: int|
                0 <= i < b.fetched_items@.len() ==> (#[trigger] b.fetched_items@[i]).fetched
                    && !b.fetched_items@[i].truncated
        },
        b.sources@.len() > 0 && (exists|i: int| 0 <= i < b.fetched_items@.len() && !(#[trigger] b.fetched_items@[i]).fetched)
            ==> search_status(b) == EvidenceStatus::Inconclusive,
{
    let f = b.fetched_items@;
    lemma_count_fetched_positive(f, FetchTally::Failed, f.len() as int);
    lemma_count_fetched_positive(f, FetchTally::Truncated, f.len() as int);
    if exists|i: int| 0 <= i < f.len() && !(#[trigger] f[i]).fetched {
        let i = choose|i: int| 0 <= i < f.len() && !(#[trigger] f[i]).fetched;
        assert(fetch_tallied(f[i], FetchTally::Failed));
    }
    if exists|i: int| 0 <= i < f.len() && !((#[trigger] f[i]).fetched && !f[i].truncated) {
        let i = choose|i: int| 0 <= i < f.len() && !((#[trigger] f[i]).fetched && !f[i].truncated);
        if !f[i].fetched {
            assert(fetch_tallied(f[i], FetchTally::Failed));
        } else {
            assert(fetch_tallied(f[i], FetchTally::Truncated));
        }
    }
}

/// A bundle without sources gives an Unavailable observation, whatever
/// else it holds.
pub proof fn lemma_sourceless_bundle_unavailable(b: Bundle)
    requires
        b.sources@.len() == 0,
    ensures
        search_status(b) == EvidenceStatus::Unavailable,
{
}

} // verus!

//! Provider verification digests: a bounded JSON specification of how
//! evidence was produced, bound to a provider namespace and schema version.
use crate::bounds::ID_CHARS;
use crate::digest::{digest_json, json_digest};
use crate::identity::VerificationDigest;
use crate::json::{canonical_json, enc, fields_of, values_of, JsonText, JsonV};
use crate::spi::{
    bounded_message, bounded_text, SpiError, SpiErrorV, MAX_VERIFICATION_SPEC_BYTES, MAX_VERIFICATION_SPEC_DEPTH,
    MAX_VERIFICATION_SPEC_NODES,
};
use crate::text::{char_count, has_nul, owned, valid_text};
use vstd::prelude::*;

verus! {

/// A JSON value of a verification specification. Object members are
/// digested in ascending key order, whatever order they are given in.
#[derive(Debug)]
pub enum SpecValue {
    Null,
    Bool(bool),
    Unsigned(u64),
    Signed(i64),
    Text(String),
    Array(Vec<SpecValue>),
    Object(Vec<(String, SpecValue)>),
}

/// The JSON value of a specification value.
pub open spec fn spec_json(v: SpecValue) -> JsonV
    decreases v,
{
    match v {
        SpecValue::Null => JsonV::Null,
        SpecValue::Bool(b) => JsonV::Bool(b),
        SpecValue::Unsigned(n) => JsonV::Nat(n as nat),
        SpecValue::Signed(i) => JsonV::Int(i as int),
        SpecValue::Text(s) => JsonV::Str(s@),
        SpecValue::Array(xs) => JsonV::Arr(spec_items(xs@)),
        SpecValue::Object(fs) => JsonV::Obj(sorted_fields(spec_fields(fs@))),
    }
}

/// Object fields in ascending key order (a stable order, so repeated keys
/// keep the order they were given in).
pub open spec fn sorted_fields(f: Seq<(Seq<char>, JsonV)>) -> Seq<(Seq<char>, JsonV)> {
    let perm = crate::sort::stable_perm(crate::sort::text_keys(Seq::new(f.len(), |i: int| f[i].0)));
    Seq::new(perm.len(), |k: int| f[perm[k] as int])
}

/// The JSON values of array elements.
pub open spec fn spec_items(xs: Seq<SpecValue>) -> Seq<JsonV>
    decreases xs,
{
    if xs.len() == 0 {
        Seq::empty()
    } else {
        proof {
            assert(decreases_to!(xs => xs[xs.len() - 1]));
        }
        spec_items(xs.drop_last()).push(spec_json(xs[xs.len() - 1]))
    }
}

/// The JSON fields of object entries.
pub open spec fn spec_fields(fs: Seq<(String, SpecValue)>) -> Seq<(Seq<char>, JsonV)>
    decreases fs,
{
    if fs.len() == 0 {
        Seq::empty()
    } else {
        proof {
            assert(decreases_to!(fs => fs[fs.len() - 1]));
        }
        spec_fields(fs.drop_last()).push((fs[fs.len() - 1].0@, spec_json(fs[fs.len() - 1].1)))
    }
}

/// Where the walk of a specification first breaks a bound, or the count
/// of values walked, in order: the value itself counts; a value deeper
/// than `MAX_VERIFICATION_SPEC_DEPTH` or past `MAX_VERIFICATION_SPEC_NODES`
/// values; a string with NUL or over 4000 scalar values; an array or
/// object of over 512 entries; an object key that is empty, holds NUL or is
/// too long; then the entries in order.
pub open spec fn walk(v: SpecValue, depth: nat, nodes: nat) -> Result<nat, Seq<char>>
    decreases v,
{
    let n1 = nodes + 1;
    if depth > MAX_VERIFICATION_SPEC_DEPTH || n1 > MAX_VERIFICATION_SPEC_NODES {
        Err("verification specification structure exceeds bound"@)
    } else {
        match v {
            SpecValue::Text(t) => if t@.contains('\0') || t@.len() > 4000 {
                Err("verification string contains NUL or exceeds bound"@)
            } else {
                Ok(n1)
            },
            SpecValue::Array(xs) => if xs@.len() > 512 {
                Err("verification array exceeds bound"@)
            } else {
                walk_items(xs@, depth + 1, n1)
            },
            SpecValue::Object(fs) => if fs@.len() > 512 {
                Err("verification object exceeds bound"@)
            } else {
                walk_fields(fs@, depth + 1, n1)
            },
            _ => Ok(n1),
        }
    }
}

/// The walk of array elements in order.
pub open spec fn walk_items(xs: Seq<SpecValue>, depth: nat, nodes: nat) -> Result<nat, Seq<char>>
    decreases xs,
{
    if xs.len() == 0 {
        Ok(nodes)
    } else {
        proof {
            assert(decreases_to!(xs => xs[xs.len() - 1]));
        }
        match walk_items(xs.drop_last(), depth, nodes) {
            Err(e) => Err(e),
            Ok(n) => walk(xs[xs.len() - 1], depth, n),
        }
    }
}

/// The walk of object entries in order, each key before its value.
pub open spec fn walk_fields(fs: Seq<(String, SpecValue)>, depth: nat, nodes: nat) -> Result<nat, Seq<char>>
    decreases fs,
{
    if fs.len() == 0 {
        Ok(nodes)
    } else {
        proof {
            assert(decreases_to!(fs => fs[fs.len() - 1]));
        }
        match walk_fields(fs.drop_last(), depth, nodes) {
            Err(e) => Err(e),
            Ok(n) => if !valid_text(fs[fs.len() - 1].0@, ID_CHARS as nat) {
                Err(bounded_message())
            } else {
                walk(fs[fs.len() - 1].1, depth, n)
            },
        }
    }
}

proof fn lemma_walk_items_err(xs: Seq<SpecValue>, depth: nat, nodes: nat, k: int, m: int)
    requires
        0 <= k <= m <= xs.len(),
        walk_items(xs.take(k), depth, nodes) is Err,
    ensures
        walk_items(xs.take(m), depth, nodes) == walk_items(xs.take(k), depth, nodes),
    decreases m - k,
{
    if m > k {
        lemma_walk_items_err(xs, depth, nodes, k, m - 1);
        assert(xs.take(m).drop_last() =~= xs.take(m - 1));
    }
}

proof fn lemma_walk_fields_err(fs: Seq<(String, SpecValue)>, depth: nat, nodes: nat, k: int, m: int)
    requires
        0 <= k <= m <= fs.len(),
        walk_fields(fs.take(k), depth, nodes) is Err,
    ensures
        walk_fields(fs.take(m), depth, nodes) == walk_fields(fs.take(k), depth, nodes),
    decreases m - k,
{
    if m > k {
        lemma_walk_fields_err(fs, depth, nodes, k, m - 1);
        assert(fs.take(m).drop_last() =~= fs.take(m - 1));
    }
}

proof fn lemma_walk_grows(v: SpecValue, depth: nat, nodes: nat)
    ensures
        walk(v, depth, nodes) matches Ok(n) ==> nodes < n <= MAX_VERIFICATION_SPEC_NODES,
    decreases v,
{
    match v {
        SpecValue::Array(xs) => {
            lemma_walk_items_grows(xs@, depth + 1, nodes + 1);
        },
        SpecValue::Object(fs) => {
            lemma_walk_fields_grows(fs@, depth + 1, nodes + 1);
        },
        _ => {},
    }
}

proof fn lemma_walk_items_grows(xs: Seq<SpecValue>, depth: nat, nodes: nat)
    ensures
        walk_items(xs, depth, nodes) matches Ok(n) ==> nodes <= n && (xs.len() > 0 ==> n <= MAX_VERIFICATION_SPEC_NODES),
    decreases xs,
{
    if xs.len() > 0 {
        assert(decreases_to!(xs => xs[xs.len() - 1]));
        lemma_walk_items_grows(xs.drop_last(), depth, nodes);
        match walk_items(xs.drop_last(), depth, nodes) {
            Ok(n) => lemma_walk_grows(xs[xs.len() - 1], depth, n),
            Err(_) => {},
        }
    }
}

proof fn lemma_walk_fields_grows(fs: Seq<(String, SpecValue)>, depth: nat, nodes: nat)
    ensures
        walk_fields(fs, depth, nodes) matches Ok(n) ==> nodes <= n && (fs.len() > 0 ==> n <= MAX_VERIFICATION_SPEC_NODES),
    decreases fs,
{
    if fs.len() > 0 {
        assert(decreases_to!(fs => fs[fs.len() - 1]));
        lemma_walk_fields_grows(fs.drop_last(), depth, nodes);
        match walk_fields(fs.drop_last(), depth, nodes) {
            Ok(n) => lemma_walk_grows(fs[fs.len() - 1].1, depth, n),
            Err(_) => {},
        }
    }
}

/// Walks a specification value (see `walk`).
fn walk_value(v: &SpecValue, depth: usize, nodes: usize) -> (r: Result<usize, SpiError>)
    requires
        depth <= MAX_VERIFICATION_SPEC_DEPTH + 1,
        nodes <= MAX_VERIFICATION_SPEC_NODES,
    ensures
        match walk(*v, depth as nat, nodes as nat) {
            Ok(n) => r == Ok::<usize, SpiError>(n as usize),
            Err(e) => r matches Err(x) && x@ == SpiErrorV::Invalid(e),
        },
    decreases v,
{
    let n1 = nodes + 1;
    if depth > MAX_VERIFICATION_SPEC_DEPTH || n1 > MAX_VERIFICATION_SPEC_NODES {
        return Err(SpiError::Invalid("verification specification structure exceeds bound"));
    }
    match v {
        SpecValue::Text(t) => {
            if has_nul(t.as_str()) || char_count(t.as_str()) > 4000 {
                Err(SpiError::Invalid("verification string contains NUL or exceeds bound"))
            } else {
                Ok(n1)
            }
        },
        SpecValue::Array(xs) => {
            if xs.len() > 512 {
                return Err(SpiError::Invalid("verification array exceeds bound"));
            }
            let mut acc: usize = n1;
            let mut i: usize = 0;
            while i < xs.len()
                invariant
                    i <= xs@.len(),
                    *v == SpecValue::Array(*xs),
                    xs@.len() <= 512,
                    n1 == nodes + 1,
                    depth <= MAX_VERIFICATION_SPEC_DEPTH,
                    walk_items(xs@.take(i as int), (depth + 1) as nat, n1 as nat) == Ok::<nat, Seq<char>>(acc as nat),
                    n1 <= acc <= MAX_VERIFICATION_SPEC_NODES,
                decreases xs.len() - i,
            {
                proof {
                    assert(xs@.take(i + 1).drop_last() =~= xs@.take(i as int));
                    assert(*v == SpecValue::Array(*xs));
                    assert(decreases_to!(*v => (*v)->Array_0));
                    assert(decreases_to!(*xs => xs@));
                    assert(decreases_to!(xs@ => xs@[i as int]));
                    assert(xs@.take(i + 1)[i as int] == xs@[i as int]);
                    lemma_walk_grows(xs@[i as int], (depth + 1) as nat, acc as nat);
                }
                match walk_value(&xs[i], depth + 1, acc) {
                    Ok(n) => {
                        acc = n;
                    },
                    Err(e) => {
                        proof {
                            assert(walk_items(xs@.take(i + 1), (depth + 1) as nat, n1 as nat) is Err);
                            lemma_walk_items_err(xs@, (depth + 1) as nat, n1 as nat, i + 1, xs@.len() as int);
                            assert(xs@.take(xs@.len() as int) =~= xs@);
                        }
                        return Err(e);
                    },
                }
                i = i + 1;
            }
            assert(xs@.take(xs@.len() as int) =~= xs@);
            Ok(acc)
        },
        SpecValue::Object(fs) => {
            if fs.len() > 512 {
                return Err(SpiError::Invalid("verification object exceeds bound"));
            }
            let mut acc: usize = n1;
            let mut i: usize = 0;
            while i < fs.len()
                invariant
                    i <= fs@.len(),
                    *v == SpecValue::Object(*fs),
                    fs@.len() <= 512,
                    n1 == nodes + 1,
                    depth <= MAX_VERIFICATION_SPEC_DEPTH,
                    walk_fields(fs@.take(i as int), (depth + 1) as nat, n1 as nat) == Ok::<nat, Seq<char>>(acc as nat),
                    n1 <= acc <= MAX_VERIFICATION_SPEC_NODES,
                decreases fs.len() - i,
            {
                proof {
                    assert(fs@.take(i + 1).drop_last() =~= fs@.take(i as int));
                    assert(*v == SpecValue::Object(*fs));
                    assert(decreases_to!(*v => (*v)->Object_0));
                    assert(decreases_to!(*fs => fs@));
                    assert(decreases_to!(fs@ => fs@[i as int]));
                    assert(decreases_to!(fs@[i as int] => fs@[i as int].1));
                    assert(fs@.take(i + 1)[i as int] == fs@[i as int]);
                    lemma_walk_grows(fs@[i as int].1, (depth + 1) as nat, acc as nat);
                }
                match bounded_text(fs[i].0.as_str(), ID_CHARS) {
                    Ok(()) => {},
                    Err(e) => {
                        proof {
                            lemma_walk_fields_err(fs@, (depth + 1) as nat, n1 as nat, i + 1, fs@.len() as int);
                            assert(fs@.take(fs@.len() as int) =~= fs@);
                        }
                        return Err(e);
                    },
                }
                match walk_value(&fs[i].1, depth + 1, acc) {
                    Ok(n) => {
                        acc = n;
                    },
                    Err(e) => {
                        proof {
                            lemma_walk_fields_err(fs@, (depth + 1) as nat, n1 as nat, i + 1, fs@.len() as int);
                            assert(fs@.take(fs@.len() as int) =~= fs@);
                        }
                        return Err(e);
                    },
                }
                i = i + 1;
            }
            assert(fs@.take(fs@.len() as int) =~= fs@);
            Ok(acc)
        },
        _ => Ok(n1),
    }
}

fn copy_text(j: &JsonText) -> (r: JsonText)
    ensures
        r.text@ == j.text@,
        r.value@ == j.value@,
{
    JsonText { text: owned(j.text.as_str()), value: Ghost(j.value@) }
}

/// The fields in ascending key order (see `sorted_fields`).
fn sort_fields(fields: &Vec<(String, JsonText)>) -> (r: Vec<(String, JsonText)>)
    requires
        forall|k: int| 0 <= k < fields@.len() ==> #[trigger] fields@[k].1.wf(),
    ensures
        fields_of(r@) == sorted_fields(fields_of(fields@)),
        forall|k: int| 0 <= k < r@.len() ==> #[trigger] r@[k].1.wf(),
{
    let ghost f = fields_of(fields@);
    let ghost names = Seq::new(f.len(), |i: int| f[i].0);
    let mut keys: Vec<crate::sort::SortKey> = Vec::new();
    let mut i: usize = 0;
    while i < fields.len()
        invariant
            i <= fields@.len(),
            f == fields_of(fields@),
            names == Seq::new(f.len(), |x: int| f[x].0),
            keys@.len() == i,
            forall|k: int| 0 <= k < i ==> (#[trigger] keys@[k])@ == crate::sort::text_keys(names)[k],
        decreases fields.len() - i,
    {
        keys.push(crate::sort::SortKey { rank: 0, first: owned(fields[i].0.as_str()), second: String::new() });
        i = i + 1;
    }
    let ghost kv = crate::sort::text_keys(names);
    assert(crate::sort::key_views(keys@) =~= kv);
    let perm = crate::sort::stable_order(&keys);
    proof {
        crate::sort::lemma_stable_perm(kv, perm@);
    }
    let mut out: Vec<(String, JsonText)> = Vec::new();
    let mut k: usize = 0;
    while k < perm.len()
        invariant
            k <= perm@.len(),
            perm@ == crate::sort::stable_perm(kv),
            crate::sort::stably_sorted(kv, perm@),
            kv == crate::sort::text_keys(names),
            kv.len() == fields@.len(),
            f == fields_of(fields@),
            names == Seq::new(f.len(), |x: int| f[x].0),
            forall|x: int| 0 <= x < fields@.len() ==> #[trigger] fields@[x].1.wf(),
            out@.len() == k,
            forall|x: int| 0 <= x < k ==> #[trigger] fields_of(out@)[x] == f[perm@[x] as int],
            forall|x: int| 0 <= x < out@.len() ==> #[trigger] out@[x].1.wf(),
        decreases perm.len() - k,
    {
        let j = perm[k];
        assert(perm@[k as int] < kv.len());
        assert(fields@[j as int].1.wf());
        let entry = (owned(fields[j].0.as_str()), copy_text(&fields[j].1));
        assert(entry.1.wf());
        assert((entry.0@, entry.1.value@) == f[j as int]);
        let ghost before = out@;
        out.push(entry);
        assert forall|x: int| 0 <= x < k + 1 implies #[trigger] fields_of(out@)[x] == f[perm@[x] as int] by {
            if x < k {
                assert(out@[x] == before[x]);
                assert(fields_of(before)[x] == f[perm@[x] as int]);
            }
        }
        assert forall|x: int| 0 <= x < out@.len() implies #[trigger] out@[x].1.wf() by {
            if x < k {
                assert(out@[x] == before[x]);
            }
        }
        k = k + 1;
    }
    assert(fields_of(out@) =~= sorted_fields(f));
    out
}

/// Encodes a specification value as JSON text (see `spec_json`).
fn to_json(v: &SpecValue) -> (j: JsonText)
    ensures
        j.wf(),
        j.value@ == spec_json(*v),
    decreases v,
{
    match v {
        SpecValue::Null => JsonText::null(),
        SpecValue::Bool(b) => JsonText::boolean(*b),
        SpecValue::Unsigned(n) => JsonText::natural(*n),
        SpecValue::Signed(i) => JsonText::integer(*i),
        SpecValue::Text(t) => JsonText::string(t.as_str()),
        SpecValue::Array(xs) => {
            let mut items: Vec<JsonText> = Vec::new();
            let mut i: usize = 0;
            while i < xs.len()
                invariant
                    i <= xs@.len(),
                    *v == SpecValue::Array(*xs),
                    values_of(items@) == spec_items(xs@.take(i as int)),
                    forall|k: int| 0 <= k < items@.len() ==> #[trigger] items@[k].wf(),
                decreases xs.len() - i,
            {
                proof {
                    assert(decreases_to!(*v => (*v)->Array_0));
                    assert(decreases_to!(*xs => xs@));
                    assert(decreases_to!(xs@ => xs@[i as int]));
                    assert(xs@.take(i + 1).drop_last() =~= xs@.take(i as int));
                    assert(xs@.take(i + 1)[i as int] == xs@[i as int]);
                }
                let ghost before = values_of(items@);
                let item = to_json(&xs[i]);
                items.push(item);
                assert(values_of(items@) =~= before.push(spec_json(xs@[i as int])));
                i = i + 1;
            }
            assert(xs@.take(xs@.len() as int) =~= xs@);
            JsonText::array(items)
        },
        SpecValue::Object(fs) => {
            let mut fields: Vec<(String, JsonText)> = Vec::new();
            let mut i: usize = 0;
            while i < fs.len()
                invariant
                    i <= fs@.len(),
                    *v == SpecValue::Object(*fs),
                    fields_of(fields@) == spec_fields(fs@.take(i as int)),
                    forall|k: int| 0 <= k < fields@.len() ==> #[trigger] fields@[k].1.wf(),
                decreases fs.len() - i,
            {
                proof {
                    assert(decreases_to!(*v => (*v)->Object_0));
                    assert(decreases_to!(*fs => fs@));
                    assert(decreases_to!(fs@ => fs@[i as int]));
                    assert(decreases_to!(fs@[i as int] => fs@[i as int].1));
                    assert(fs@.take(i + 1).drop_last() =~= fs@.take(i as int));
                    assert(fs@.take(i + 1)[i as int] == fs@[i as int]);
                }
                let ghost before = fields_of(fields@);
                let value = to_json(&fs[i].1);
                fields.push((owned(fs[i].0.as_str()), value));
                assert(fields_of(fields@) =~= before.push((fs@[i as int].0@, spec_json(fs@[i as int].1))));
                i = i + 1;
            }
            assert(fs@.take(fs@.len() as int) =~= fs@);
            JsonText::object(sort_fields(&fields))
        },
    }
}

/// The domain-separated envelope whose digest is the verification digest.
pub open spec fn envelope(namespace: Seq<char>, schema_version: u32, payload: SpecValue) -> JsonV {
    JsonV::Obj(
        seq![
            ("domain"@, JsonV::Str("eggplan.provider-verification.v1"@)),
            ("provider_namespace"@, JsonV::Str(namespace)),
            ("schema_version"@, JsonV::Nat(schema_version as nat)),
            ("canonical_payload"@, spec_json(payload)),
        ],
    )
}

/// The verification digest of a specification, or why it is refused, in
/// order: a namespace that is empty, holds NUL or exceeds `ID_CHARS`
/// scalar values; a zero schema version; a bound that `walk` finds
/// broken; an encoded envelope over `MAX_VERIFICATION_SPEC_BYTES` bytes.
/// Otherwise the digest of the envelope.
pub open spec fn verification_outcome(namespace: Seq<char>, schema_version: u32, payload: SpecValue) -> Result<
    Seq<char>,
    SpiErrorV,
> {
    if !valid_text(namespace, ID_CHARS as nat) {
        Err(SpiErrorV::Invalid(bounded_message()))
    } else if schema_version == 0 {
        Err(SpiErrorV::Invalid("verification schema version must be nonzero"@))
    } else {
        match walk(payload, 0, 0) {
            Err(e) => Err(SpiErrorV::Invalid(e)),
            Ok(_) => if vstd::utf8::encode_utf8(enc(envelope(namespace, schema_version, payload))).len()
                > MAX_VERIFICATION_SPEC_BYTES {
                Err(SpiErrorV::InvalidVerificationSpec("verification specification exceeds byte bound"@))
            } else {
                Ok(json_digest(envelope(namespace, schema_version, payload)))
            },
        }
    }
}

/// Derives the verification digest of a specification (see
/// `verification_outcome`): a `sha256:` digest of the compact envelope,
/// bound to the provider namespace and schema version.
pub fn verification_digest(provider_namespace: &str, schema_version: u32, payload: &SpecValue) -> (r: Result<
    VerificationDigest,
    SpiError,
>)
    ensures
        match verification_outcome(provider_namespace@, schema_version, *payload) {
            Ok(d) => r matches Ok(x) && x@ == d && crate::digest::is_sha256_text(d),
            Err(e) => r matches Err(x) && x@ == e,
        },
{
    bounded_text(provider_namespace, ID_CHARS)?;
    if schema_version == 0 {
        return Err(SpiError::Invalid("verification schema version must be nonzero"));
    }
    walk_value(payload, 0, 0)?;
    let mut fields: Vec<(String, JsonText)> = Vec::new();
    fields.push(crate::json::field("domain", JsonText::string("eggplan.provider-verification.v1")));
    fields.push(crate::json::field("provider_namespace", JsonText::string(provider_namespace)));
    fields.push(crate::json::field("schema_version", JsonText::natural(schema_version as u64)));
    fields.push(crate::json::field("canonical_payload", to_json(payload)));
    assert(fields_of(fields@) =~= envelope(provider_namespace@, schema_version, *payload)->Obj_0);
    let env = JsonText::object(fields);
    let bytes = canonical_json(&env);
    if bytes.len() > MAX_VERIFICATION_SPEC_BYTES {
        return Err(SpiError::InvalidVerificationSpec(owned("verification specification exceeds byte bound")));
    }
    let d = digest_json(&env);
    match VerificationDigest::new(d.as_str()) {
        Ok(v) => Ok(v),
        Err(_) => {
            proof {
                assert(false);
            }
            Err(SpiError::InvalidVerificationSpec(owned("verification specification exceeds byte bound")))
        },
    }
}

} // verus!

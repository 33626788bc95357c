//! The worktree subject: bounds on what a dirty-state capture may read,
//! the length-prefixed manifest of dirty paths, and the subject revision a
//! manifest gives. Walking Git status and reading files stays with the
//! host, which feeds rows to these functions.
use crate::model::{subject_error, validation_message, SubjectRevision, SubjectState};
use crate::text::{owned, push_str};
use vstd::prelude::*;

verus! {

/// Bounds on a dirty-state capture.
#[derive(Debug, Clone, Copy, PartialEq, Eq, Structural)]
pub struct GitSubjectOptions {
    pub max_paths: usize,
    pub max_content_bytes: u64,
    pub max_submodule_depth: usize,
}

impl Default for GitSubjectOptions {
    /// Ten thousand paths, 64 MiB of content, eight submodule levels.
    fn default() -> (r: Self)
        ensures
            r.max_paths == 10_000,
            r.max_content_bytes == 64 * 1024 * 1024,
            r.max_submodule_depth == 8,
    {
        GitSubjectOptions { max_paths: 10_000, max_content_bytes: 64 * 1024 * 1024, max_submodule_depth: 8 }
    }
}

/// Where and how a worktree subject is captured.
#[derive(Debug, Clone)]
pub struct GitSubjectSource {
    root: String,
    repository_id: String,
    options: GitSubjectOptions,
    excluded_root: Option<String>,
}

impl GitSubjectSource {
    /// The worktree root.
    pub closed spec fn root_view(&self) -> Seq<char> {
        self.root@
    }

    /// The repository identifier subjects carry.
    pub closed spec fn repository_view(&self) -> Seq<char> {
        self.repository_id@
    }

    /// The capture bounds.
    pub closed spec fn options_view(&self) -> GitSubjectOptions {
        self.options
    }

    /// The administrative directory left out of the dirty state, if any.
    pub closed spec fn excluded_view(&self) -> Option<Seq<char>> {
        match self.excluded_root {
            Some(p) => Some(p@),
            None => None,
        }
    }

    /// A source for a worktree root and repository identifier, with the
    /// default bounds and nothing excluded.
    pub fn new(root: &str, repository_id: &str) -> (r: GitSubjectSource)
        ensures
            r.root_view() == root@,
            r.repository_view() == repository_id@,
            r.options_view().max_paths == 10_000,
            r.options_view().max_content_bytes == 64 * 1024 * 1024,
            r.options_view().max_submodule_depth == 8,
            r.excluded_view() is None,
    {
        GitSubjectSource {
            root: owned(root),
            repository_id: owned(repository_id),
            options: GitSubjectOptions::default(),
            excluded_root: None,
        }
    }

    /// The same source with other bounds.
    pub fn with_options(self, options: GitSubjectOptions) -> (r: GitSubjectSource)
        ensures
            r.root_view() == self.root_view(),
            r.repository_view() == self.repository_view(),
            r.options_view() == options,
            r.excluded_view() == self.excluded_view(),
    {
        let mut s = self;
        s.options = options;
        s
    }

    /// The same source leaving one administrative directory, and all it
    /// holds, out of the dirty state.
    pub fn excluding_path(self, path: &str) -> (r: GitSubjectSource)
        ensures
            r.root_view() == self.root_view(),
            r.repository_view() == self.repository_view(),
            r.options_view() == self.options_view(),
            r.excluded_view() == Some(path@),
    {
        let mut s = self;
        s.excluded_root = Some(owned(path));
        s
    }

    /// The worktree root.
    pub fn root(&self) -> (r: &str)
        ensures
            r@ == self.root_view(),
    {
        self.root.as_str()
    }

    /// The repository identifier.
    pub fn repository_id(&self) -> (r: &str)
        ensures
            r@ == self.repository_view(),
    {
        self.repository_id.as_str()
    }

    /// The capture bounds.
    pub fn options(&self) -> (r: GitSubjectOptions)
        ensures
            r == self.options_view(),
    {
        self.options
    }

    /// The excluded directory.
    pub fn excluded_root(&self) -> (r: Option<&str>)
        ensures
            match r {
                Some(p) => self.excluded_view() == Some(p@),
                None => self.excluded_view() is None,
            },
    {
        match &self.excluded_root {
            Some(p) => Some(p.as_str()),
            None => None,
        }
    }
}

/// What a capture has read so far against its bounds.
#[derive(Debug, Clone, Copy)]
pub struct Budget {
    pub paths: usize,
    pub bytes: u64,
    pub options: GitSubjectOptions,
}

impl Budget {
    /// Nothing read yet.
    pub fn new(options: GitSubjectOptions) -> (r: Budget)
        ensures
            r.paths == 0,
            r.bytes == 0,
            r.options == options,
    {
        Budget { paths: 0, bytes: 0, options }
    }

    /// Counts one more path (saturating); whether the path bound still holds.
    pub fn add_path(&mut self) -> (within: bool)
        ensures
            final(self).paths == if old(self).paths == usize::MAX {
                usize::MAX
            } else {
                (old(self).paths + 1) as usize
            },
            final(self).bytes == old(self).bytes,
            final(self).options == old(self).options,
            within == (final(self).paths <= final(self).options.max_paths),
    {
        if self.paths < usize::MAX {
            self.paths = self.paths + 1;
        }
        self.paths <= self.options.max_paths
    }

    /// Counts more content bytes (saturating); whether the byte bound still
    /// holds.
    pub fn add_bytes(&mut self, amount: usize) -> (within: bool)
        ensures
            final(self).bytes == if old(self).bytes + amount > u64::MAX {
                u64::MAX
            } else {
                (old(self).bytes + amount) as u64
            },
            final(self).paths == old(self).paths,
            final(self).options == old(self).options,
            within == (final(self).bytes <= final(self).options.max_content_bytes),
    {
        let a = amount as u64;
        if self.bytes > u64::MAX - a {
            self.bytes = u64::MAX;
        } else {
            self.bytes = self.bytes + a;
        }
        self.bytes <= self.options.max_content_bytes
    }

    /// Whether a submodule depth is within the bound.
    pub fn depth_ok(&self, depth: usize) -> (r: bool)
        ensures
            r == (depth <= self.options.max_submodule_depth),
    {
        depth <= self.options.max_submodule_depth
    }
}

/// The `k` low bytes of `n`, least significant first.
pub open spec fn le_bytes(n: nat, k: nat) -> Seq<u8>
    decreases k,
{
    if k == 0 {
        Seq::empty()
    } else {
        seq![(n % 256) as u8] + le_bytes(n / 256, (k - 1) as nat)
    }
}

fn push_le(out: &mut Vec<u8>, n: u64, k: u32)
    ensures
        final(out)@ == old(out)@ + le_bytes(n as nat, k as nat),
    decreases k,
{
    if k > 0 {
        let ghost start = out@;
        out.push((n % 256) as u8);
        push_le(out, n / 256, k - 1);
        assert(out@ =~= start + le_bytes(n as nat, k as nat));
    } else {
        assert(out@ =~= old(out)@ + le_bytes(n as nat, k as nat));
    }
}

/// A length-prefixed field: the length as eight little-endian bytes, then
/// the bytes.
pub open spec fn field_bytes(b: Seq<u8>) -> Seq<u8> {
    le_bytes(b.len(), 8) + b
}

/// Appends a length-prefixed field (see `field_bytes`).
pub fn field(output: &mut Vec<u8>, bytes: &[u8])
    ensures
        final(output)@ == old(output)@ + field_bytes(bytes@),
{
    let ghost start = output@;
    push_le(output, bytes.len() as u64, 8);
    let mut i: usize = 0;
    while i < bytes.len()
        invariant
            i <= bytes@.len(),
            output@ == start + le_bytes(bytes@.len(), 8) + bytes@.take(i as int),
        decreases bytes.len() - i,
    {
        output.push(bytes[i]);
        i = i + 1;
        assert(output@ =~= start + le_bytes(bytes@.len(), 8) + bytes@.take(i as int));
    }
    assert(bytes@.take(bytes@.len() as int) =~= bytes@);
}

/// The rows of a manifest in path order (stable).
pub open spec fn path_keys(rows: Seq<(String, Vec<u8>)>) -> Seq<crate::sort::KeyV> {
    Seq::new(rows.len(), |i: int| crate::sort::KeyV { rank: 0, first: rows[i].0@, second: Seq::empty() })
}

/// The fields of the first `n` rows, in the order of a permutation.
pub open spec fn manifest_prefix(rows: Seq<(String, Vec<u8>)>, perm: Seq<usize>, n: int) -> Seq<u8>
    decreases n,
{
    if n <= 0 {
        Seq::empty()
    } else {
        manifest_prefix(rows, perm, n - 1) + field_bytes(rows[perm[n - 1] as int].1@)
    }
}

/// A dirty-state manifest: each row's bytes as a field, rows in path order.
pub open spec fn manifest_spec(rows: Seq<(String, Vec<u8>)>) -> Seq<u8> {
    let perm = crate::sort::stable_perm(path_keys(rows));
    manifest_prefix(rows, perm, perm.len() as int)
}

/// Assembles a dirty-state manifest from rows of path and row bytes (see
/// `manifest_spec`).
pub fn manifest_of(rows: &Vec<(String, Vec<u8>)>) -> (r: Vec<u8>)
    ensures
        r@ == manifest_spec(rows@),
{
    let mut keys: Vec<crate::sort::SortKey> = Vec::new();
    let mut i: usize = 0;
    while i < rows.len()
        invariant
            i <= rows@.len(),
            keys@.len() == i,
            forall|k: int| 0 <= k < i ==> (#[trigger] keys@[k])@ == path_keys(rows@)[k],
        decreases rows.len() - i,
    {
        keys.push(crate::sort::SortKey { rank: 0, first: rows[i].0.clone(), second: String::new() });
        i = i + 1;
    }
    assert(crate::sort::key_views(keys@) =~= path_keys(rows@));
    let perm = crate::sort::stable_order(&keys);
    proof {
        crate::sort::lemma_stable_perm(path_keys(rows@), perm@);
    }
    let mut out: Vec<u8> = Vec::new();
    let mut k: usize = 0;
    while k < perm.len()
        invariant
            k <= perm@.len(),
            crate::sort::stably_sorted(path_keys(rows@), perm@),
            perm@ == crate::sort::stable_perm(path_keys(rows@)),
            out@ == manifest_prefix(rows@, perm@, k as int),
        decreases perm.len() - k,
    {
        let j = perm[k];
        field(&mut out, rows[j].1.as_slice());
        k = k + 1;
    }
    out
}

/// The subject a manifest gives: clean when it is empty, otherwise dirty
/// with the digest of the manifest bytes.
pub open spec fn subject_of(repository_id: Seq<char>, head: Seq<char>, manifest: Seq<u8>) -> crate::model::SubjectView {
    crate::model::SubjectView {
        subject_kind: "git"@,
        repository_id,
        revision: head,
        state: if manifest.len() == 0 {
            SubjectState::Clean
        } else {
            SubjectState::Dirty
        },
        dirty_digest: if manifest.len() == 0 {
            None
        } else {
            Some(crate::digest::sha256_prefix() + crate::digest::hex_lower(crate::digest::sha256_spec(manifest)))
        },
    }
}

/// The subject revision of a worktree at a head commit with a dirty-state
/// manifest (see `subject_of`), or the reason it is not a valid subject.
pub fn subject_from(repository_id: &str, head: &str, manifest: &[u8]) -> (r: Result<SubjectRevision, String>)
    ensures
        match r {
            Ok(s) => s@ == subject_of(repository_id@, head@, manifest@) && subject_error(s@) is None,
            Err(e) => subject_error(subject_of(repository_id@, head@, manifest@)) matches Some(x) && e@
                == validation_message(x),
        },
{
    proof {
        reveal_strlit("git");
        reveal_strlit("sha256:");
    }
    let dirty = manifest.len() > 0;
    let digest = if dirty {
        let mut d = owned("sha256:");
        let hex = crate::digest::hex_sha256(manifest);
        push_str(&mut d, hex.as_str());
        assert("sha256:"@ =~= crate::digest::sha256_prefix());
        Some(d)
    } else {
        None
    };
    let subject = SubjectRevision {
        subject_kind: owned("git"),
        repository_id: owned(repository_id),
        revision: owned(head),
        state: if dirty {
            SubjectState::Dirty
        } else {
            SubjectState::Clean
        },
        dirty_digest: digest,
    };
    assert(subject@ == subject_of(repository_id@, head@, manifest@));
    match subject.validate() {
        Ok(()) => Ok(subject),
        Err(e) => Err(e.message()),
    }
}

} // verus!

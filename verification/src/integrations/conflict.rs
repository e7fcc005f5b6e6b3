//! Conflicts: both the local and the cloud version of a file have changed.

use vstd::prelude::*;
use vstd::string::*;

use crate::clock::{now, to_compact, Timestamp};
use crate::integrations::CloudFile;
use crate::text::{rfind, same, same_bytes, slice, split, starts_with};

verus! {

/// How a conflict was resolved.
#[derive(Debug)]
pub enum ConflictResolution {
    /// Use the local version.
    UseLocal,
    /// Use the cloud version.
    UseCloud,
    /// Keep both (rename one).
    KeepBoth {
        /// New name for the conflicting file.
        renamed_to: String,
    },
    /// Merge content (for supported file types).
    Merged,
    /// User must manually resolve.
    ManualRequired,
    /// Skip this file.
    Skip,
}

/// [`ConflictResolution`] with its name as characters.
pub enum ResolutionView {
    UseLocal,
    UseCloud,
    KeepBoth(Seq<char>),
    Merged,
    ManualRequired,
    Skip,
}

impl View for ConflictResolution {
    type V = ResolutionView;

    open spec fn view(&self) -> ResolutionView {
        match self {
            ConflictResolution::UseLocal => ResolutionView::UseLocal,
            ConflictResolution::UseCloud => ResolutionView::UseCloud,
            ConflictResolution::KeepBoth { renamed_to } => ResolutionView::KeepBoth(renamed_to@),
            ConflictResolution::Merged => ResolutionView::Merged,
            ConflictResolution::ManualRequired => ResolutionView::ManualRequired,
            ConflictResolution::Skip => ResolutionView::Skip,
        }
    }
}

impl Clone for ConflictResolution {
    fn clone(&self) -> (r: Self)
        ensures
            r == *self,
    {
        match self {
            ConflictResolution::UseLocal => ConflictResolution::UseLocal,
            ConflictResolution::UseCloud => ConflictResolution::UseCloud,
            ConflictResolution::KeepBoth { renamed_to } => ConflictResolution::KeepBoth {
                renamed_to: renamed_to.clone(),
            },
            ConflictResolution::Merged => ConflictResolution::Merged,
            ConflictResolution::ManualRequired => ConflictResolution::ManualRequired,
            ConflictResolution::Skip => ConflictResolution::Skip,
        }
    }
}

/// Strategy for automatic conflict resolution.
#[derive(Debug, Clone, Copy, PartialEq, Eq, Structural)]
pub enum ConflictStrategy {
    /// Always use the newer modification time.
    NewerWins,
    /// Always prefer local changes.
    LocalWins,
    /// Always prefer cloud changes.
    CloudWins,
    /// Keep both versions (create conflict copies).
    KeepBoth,
    /// Ask user for each conflict.
    AskUser,
}

impl Default for ConflictStrategy {
    fn default() -> (r: Self)
        ensures
            r == ConflictStrategy::NewerWins,
    {
        ConflictStrategy::NewerWins
    }
}

/// Types of conflicts.
#[derive(Debug, Clone, Copy, PartialEq, Eq, Structural)]
pub enum ConflictType {
    /// Both modified since last sync.
    BothModified,
    /// Local deleted, cloud modified.
    LocalDeletedCloudModified,
    /// Local modified, cloud deleted.
    LocalModifiedCloudDeleted,
    /// File type changed (e.g., file became folder).
    TypeChanged,
    /// Content hash mismatch with same modification time.
    HashMismatch,
}

/// A detected conflict between local and cloud versions.
#[derive(Debug)]
pub struct Conflict {
    /// Local file path.
    pub local_path: String,
    /// Cloud file metadata.
    pub cloud_file: CloudFile,
    /// Local modification time (Unix timestamp).
    pub local_modified_at: i64,
    /// Local file size.
    pub local_size: u64,
    /// Type of conflict.
    pub conflict_type: ConflictType,
    /// How it was resolved (if resolved).
    pub resolution: Option<ConflictResolution>,
}

impl Clone for Conflict {
    fn clone(&self) -> (r: Self)
        ensures
            r == *self,
    {
        Conflict {
            local_path: self.local_path.clone(),
            cloud_file: self.cloud_file.clone(),
            local_modified_at: self.local_modified_at,
            local_size: self.local_size,
            conflict_type: self.conflict_type,
            resolution: self.resolution.clone(),
        }
    }
}

/// The name of a conflict copy of `original` made at `at`: the time goes before the extension.
pub open spec fn conflict_name(original: Seq<char>, at: Timestamp) -> Seq<char> {
    let stamp = "_conflict_"@ + crate::clock::compact(at.seconds, at.nanos);
    match crate::text::last_index(original, '.') {
        Some(dot) => original.take(dot as int) + stamp + original.skip(dot as int),
        None => original + stamp,
    }
}

/// How a conflict is resolved by modification time: the newer version, or what is left where only
/// one side has the file; both where neither is newer.
pub open spec fn by_time(c: Conflict, at: Timestamp) -> ResolutionView {
    match c.conflict_type {
        ConflictType::BothModified | ConflictType::HashMismatch => if c.local_modified_at
            > c.cloud_file.modified_at {
            ResolutionView::UseLocal
        } else if c.local_modified_at < c.cloud_file.modified_at {
            ResolutionView::UseCloud
        } else {
            ResolutionView::KeepBoth(conflict_name(c.cloud_file.name@, at))
        },
        ConflictType::LocalDeletedCloudModified => ResolutionView::UseCloud,
        ConflictType::LocalModifiedCloudDeleted => ResolutionView::UseLocal,
        ConflictType::TypeChanged => ResolutionView::KeepBoth(
            conflict_name(c.cloud_file.name@, at),
        ),
    }
}

/// How a conflict is resolved under a strategy.
pub open spec fn resolution_of(s: ConflictStrategy, c: Conflict, at: Timestamp) -> ResolutionView {
    match s {
        ConflictStrategy::NewerWins => by_time(c, at),
        ConflictStrategy::LocalWins => ResolutionView::UseLocal,
        ConflictStrategy::CloudWins => ResolutionView::UseCloud,
        ConflictStrategy::KeepBoth => ResolutionView::KeepBoth(
            conflict_name(c.cloud_file.name@, at),
        ),
        ConflictStrategy::AskUser => ResolutionView::ManualRequired,
    }
}

/// Conflict resolver with configurable strategy.
pub struct ConflictResolver {
    strategy: ConflictStrategy,
    /// Conflicts that need manual resolution.
    pending_conflicts: Vec<Conflict>,
}

/// The name of a file in a path: its last segment, where that names something.
pub open spec fn file_name(path: Seq<char>) -> Seq<char> {
    last_name(crate::text::split_on(path, '/'))
}

/// The last of `segments` that is neither empty nor `.`; nothing if that is `..`.
pub open spec fn last_name(segments: Seq<Seq<char>>) -> Seq<char>
    decreases segments.len(),
{
    if segments.len() == 0 {
        Seq::empty()
    } else if segments.last().len() == 0 || segments.last() == "."@ {
        last_name(segments.drop_last())
    } else if segments.last() == ".."@ {
        Seq::empty()
    } else {
        segments.last()
    }
}

/// The name of the file in `path`.
fn name_of(path: &str) -> (r: String)
    ensures
        r@ == file_name(path@),
{
    let segments = split(path, '/');
    let ghost all = crate::text::slice_texts(segments@);
    let mut i: usize = segments.len();
    assert(all.take(i as int) =~= all);
    while i > 0
        invariant
            i <= segments@.len(),
            all == crate::text::slice_texts(segments@),
            all == crate::text::split_on(path@, '/'),
            last_name(all) == last_name(all.take(i as int)),
        decreases i,
    {
        let s = segments[i - 1];
        assert(all.take(i as int).last() == s@);
        assert(all.take(i as int).drop_last() =~= all.take(i as int - 1));
        if s.is_empty() || same(s, ".") {
            i -= 1;
        } else if same(s, "..") {
            return String::new();
        } else {
            return s.to_owned();
        }
    }
    String::new()
}

/// The conflict, if any, between what is known of the local and of the cloud version.
pub open spec fn conflict_between(
    local_modified_at: i64,
    local_exists: bool,
    cloud_modified_at: Option<i64>,
    last_sync: i64,
) -> Option<ConflictType> {
    match cloud_modified_at {
        Some(at) => if local_exists {
            if local_modified_at > last_sync && at > last_sync {
                Some(ConflictType::BothModified)
            } else {
                None
            }
        } else if at > last_sync {
            Some(ConflictType::LocalDeletedCloudModified)
        } else {
            None
        },
        None => if local_exists && local_modified_at > last_sync {
            Some(ConflictType::LocalModifiedCloudDeleted)
        } else {
            None
        },
    }
}

impl ConflictResolver {
    pub closed spec fn strategy(&self) -> ConflictStrategy {
        self.strategy
    }

    /// The conflicts that wait for the user.
    pub closed spec fn pending(&self) -> Seq<Conflict> {
        self.pending_conflicts@
    }

    pub fn new(strategy: ConflictStrategy) -> (r: Self)
        ensures
            r.strategy() == strategy,
            r.pending() == Seq::<Conflict>::empty(),
    {
        ConflictResolver { strategy, pending_conflicts: Vec::new() }
    }

    /// Resolve a conflict using the configured strategy.
    pub fn resolve(&mut self, conflict: &mut Conflict) -> (r: ConflictResolution)
        ensures
            exists|at: Timestamp|
                at.valid() && r@ == resolution_of(old(self).strategy(), *old(conflict), at),
            old(self).strategy() == ConflictStrategy::LocalWins ==> r == ConflictResolution::UseLocal,
            old(self).strategy() == ConflictStrategy::CloudWins ==> r == ConflictResolution::UseCloud,
            old(self).strategy() == ConflictStrategy::AskUser ==> r
                == ConflictResolution::ManualRequired,
            old(self).strategy() == ConflictStrategy::KeepBoth ==> r is KeepBoth,
            old(self).strategy() == ConflictStrategy::NewerWins && (old(conflict).conflict_type
                == ConflictType::BothModified || old(conflict).conflict_type
                == ConflictType::HashMismatch) ==> {
                &&& old(conflict).local_modified_at > old(conflict).cloud_file.modified_at ==> r
                    == ConflictResolution::UseLocal
                &&& old(conflict).local_modified_at < old(conflict).cloud_file.modified_at ==> r
                    == ConflictResolution::UseCloud
                &&& old(conflict).local_modified_at == old(conflict).cloud_file.modified_at ==> r
                    is KeepBoth
            },
            *final(conflict) == (Conflict { resolution: Some(r), ..*old(conflict) }),
            final(self).strategy() == old(self).strategy(),
            final(self).pending() == (if old(self).strategy() == ConflictStrategy::AskUser {
                old(self).pending().push(*old(conflict))
            } else {
                old(self).pending()
            }),
    {
        self.resolve_at(conflict, now())
    }

    /// Resolve a conflict at a point in time.
    pub fn resolve_at(&mut self, conflict: &mut Conflict, at: Timestamp) -> (r: ConflictResolution)
        requires
            at.valid(),
        ensures
            r@ == resolution_of(old(self).strategy(), *old(conflict), at),
            old(self).strategy() == ConflictStrategy::LocalWins ==> r == ConflictResolution::UseLocal,
            old(self).strategy() == ConflictStrategy::CloudWins ==> r == ConflictResolution::UseCloud,
            old(self).strategy() == ConflictStrategy::AskUser ==> r
                == ConflictResolution::ManualRequired,
            old(self).strategy() == ConflictStrategy::KeepBoth ==> r is KeepBoth,
            old(self).strategy() == ConflictStrategy::NewerWins && (old(conflict).conflict_type
                == ConflictType::BothModified || old(conflict).conflict_type
                == ConflictType::HashMismatch) ==> {
                &&& old(conflict).local_modified_at > old(conflict).cloud_file.modified_at ==> r
                    == ConflictResolution::UseLocal
                &&& old(conflict).local_modified_at < old(conflict).cloud_file.modified_at ==> r
                    == ConflictResolution::UseCloud
                &&& old(conflict).local_modified_at == old(conflict).cloud_file.modified_at ==> r
                    is KeepBoth
            },
            *final(conflict) == (Conflict { resolution: Some(r), ..*old(conflict) }),
            final(self).strategy() == old(self).strategy(),
            final(self).pending() == (if old(self).strategy() == ConflictStrategy::AskUser {
                old(self).pending().push(*old(conflict))
            } else {
                old(self).pending()
            }),
    {
        let resolution = match self.strategy {
            ConflictStrategy::NewerWins => self.resolve_by_time(conflict, at),
            ConflictStrategy::LocalWins => ConflictResolution::UseLocal,
            ConflictStrategy::CloudWins => ConflictResolution::UseCloud,
            ConflictStrategy::KeepBoth => ConflictResolution::KeepBoth {
                renamed_to: conflict_name_at(conflict.cloud_file.name.as_str(), at),
            },
            ConflictStrategy::AskUser => {
                self.pending_conflicts.push(conflict.clone());
                ConflictResolution::ManualRequired
            },
        };
        conflict.resolution = Some(resolution.clone());
        resolution
    }

    /// Resolve based on modification time.
    fn resolve_by_time(&self, conflict: &Conflict, at: Timestamp) -> (r: ConflictResolution)
        requires
            at.valid(),
        ensures
            r@ == by_time(*conflict, at),
    {
        match conflict.conflict_type {
            ConflictType::BothModified | ConflictType::HashMismatch => {
                if conflict.local_modified_at > conflict.cloud_file.modified_at {
                    ConflictResolution::UseLocal
                } else if conflict.local_modified_at < conflict.cloud_file.modified_at {
                    ConflictResolution::UseCloud
                } else {
                    // Same time, keep both.
                    ConflictResolution::KeepBoth {
                        renamed_to: conflict_name_at(conflict.cloud_file.name.as_str(), at),
                    }
                }
            },
            // Cloud has newer changes, restore from cloud.
            ConflictType::LocalDeletedCloudModified => ConflictResolution::UseCloud,
            // Local has changes, upload to cloud.
            ConflictType::LocalModifiedCloudDeleted => ConflictResolution::UseLocal,
            // Keep both and let user sort it out.
            ConflictType::TypeChanged => ConflictResolution::KeepBoth {
                renamed_to: conflict_name_at(conflict.cloud_file.name.as_str(), at),
            },
        }
    }

    /// Generate a conflict filename.
    pub fn generate_conflict_name(&self, original: &str) -> (r: String)
        ensures
            exists|at: Timestamp| at.valid() && r@ == #[trigger] conflict_name(original@, at),
    {
        conflict_name_at(original, now())
    }

    /// Get pending conflicts that need manual resolution.
    pub fn pending_conflicts(&self) -> (r: &[Conflict])
        ensures
            r@ == self.pending(),
    {
        self.pending_conflicts.as_slice()
    }

    /// Clear pending conflicts.
    pub fn clear_pending(&mut self)
        ensures
            final(self).strategy() == old(self).strategy(),
            final(self).pending() == Seq::<Conflict>::empty(),
    {
        self.pending_conflicts.clear();
    }

    /// Manually resolve a pending conflict.
    pub fn resolve_manual(&mut self, index: usize, resolution: ConflictResolution) -> (r: Option<
        Conflict,
    >)
        ensures
            final(self).strategy() == old(self).strategy(),
            if index < old(self).pending().len() {
                &&& r == Some(
                    Conflict {
                        resolution: Some(resolution),
                        ..old(self).pending()[index as int]
                    },
                )
                &&& final(self).pending() == old(self).pending().remove(index as int)
            } else {
                r is None && final(self).pending() == old(self).pending()
            },
    {
        if index < self.pending_conflicts.len() {
            let mut conflict = self.pending_conflicts.remove(index);
            conflict.resolution = Some(resolution);
            Some(conflict)
        } else {
            None
        }
    }

    /// Detect if there's a conflict between local and cloud versions.
    pub fn detect_conflict(
        local_path: &str,
        local_modified_at: i64,
        local_size: u64,
        local_exists: bool,
        cloud_file: Option<&CloudFile>,
        last_sync_time: Option<i64>,
    ) -> (r: Option<Conflict>)
        ensures
            ({
                let since = match last_sync_time {
                    Some(t) => t,
                    None => 0i64,
                };
                let cloud_at = match cloud_file {
                    Some(f) => Some(f.modified_at),
                    None => None,
                };
                match conflict_between(local_modified_at, local_exists, cloud_at, since) {
                    None => r is None,
                    Some(kind) => r matches Some(c) && {
                        &&& c.conflict_type == kind
                        &&& c.local_path@ == local_path@
                        &&& c.resolution is None
                        &&& c.local_modified_at == (if local_exists {
                            local_modified_at
                        } else {
                            0
                        })
                        &&& c.local_size == (if local_exists {
                            local_size
                        } else {
                            0
                        })
                        &&& match cloud_file {
                            Some(f) => c.cloud_file == *f,
                            None => c.cloud_file@ == (crate::integrations::CloudFileView {
                                id: Seq::empty(),
                                name: file_name(local_path@),
                                mime_type: None,
                                size: 0,
                                modified_at: 0,
                                content_hash: None,
                                parent_id: None,
                                is_folder: false,
                                path: local_path@,
                                deleted: false,
                            }),
                        }
                    },
                }
            }),
    {
        let since: i64 = match last_sync_time {
            Some(t) => t,
            None => 0,
        };
        match (local_exists, cloud_file) {
            (true, Some(cloud)) => {
                // Both exist: check if both were modified since last sync.
                if local_modified_at > since && cloud.modified_at > since {
                    Some(
                        Conflict {
                            local_path: local_path.to_owned(),
                            cloud_file: cloud.clone(),
                            local_modified_at,
                            local_size,
                            conflict_type: ConflictType::BothModified,
                            resolution: None,
                        },
                    )
                } else {
                    None
                }
            },
            (false, Some(cloud)) => {
                if cloud.modified_at > since {
                    Some(
                        Conflict {
                            local_path: local_path.to_owned(),
                            cloud_file: cloud.clone(),
                            local_modified_at: 0,
                            local_size: 0,
                            conflict_type: ConflictType::LocalDeletedCloudModified,
                            resolution: None,
                        },
                    )
                } else {
                    None  // Local delete should propagate.

                }
            },
            (true, None) => {
                if local_modified_at > since {
                    // A placeholder stands for the cloud file.
                    Some(
                        Conflict {
                            local_path: local_path.to_owned(),
                            cloud_file: CloudFile {
                                id: String::new(),
                                name: name_of(local_path),
                                mime_type: None,
                                size: 0,
                                modified_at: 0,
                                content_hash: None,
                                parent_id: None,
                                is_folder: false,
                                path: local_path.to_owned(),
                                deleted: false,
                            },
                            local_modified_at,
                            local_size,
                            conflict_type: ConflictType::LocalModifiedCloudDeleted,
                            resolution: None,
                        },
                    )
                } else {
                    None  // Cloud delete should propagate.

                }
            },
            (false, None) => None,
        }
    }
}

/// The name of a conflict copy of `original` made at `at`.
pub fn conflict_name_at(original: &str, at: Timestamp) -> (r: String)
    requires
        at.valid(),
    ensures
        r@ == conflict_name(original@, at),
{
    let stamp = to_compact(at);
    let n: usize = crate::text::char_count(original);
    match rfind(original, '.') {
        Some(dot) => {
            let mut out = slice(original, 0, dot).to_owned();
            out.push_str("_conflict_");
            out.push_str(stamp.as_str());
            out.push_str(slice(original, dot, n));
            assert(out@ =~= conflict_name(original@, at));
            out
        },
        None => {
            let mut out = original.to_owned();
            out.push_str("_conflict_");
            out.push_str(stamp.as_str());
            assert(out@ =~= conflict_name(original@, at));
            out
        },
    }
}

/// Merge result for content-aware merging.
#[derive(Debug)]
pub enum MergeResult {
    /// Successfully merged.
    Success(Vec<u8>),
    /// Merge not possible, need manual resolution.
    CannotMerge,
    /// File type doesn't support merging.
    Unsupported,
}

/// [`MergeResult`] with the content as a sequence.
pub enum MergeView {
    Success(Seq<u8>),
    CannotMerge,
    Unsupported,
}

impl View for MergeResult {
    type V = MergeView;

    open spec fn view(&self) -> MergeView {
        match self {
            MergeResult::Success(b) => MergeView::Success(b@),
            MergeResult::CannotMerge => MergeView::CannotMerge,
            MergeResult::Unsupported => MergeView::Unsupported,
        }
    }
}

/// What `diffy::merge_bytes` merges two versions of a text to, against their common ancestor;
/// `None` where it finds that they conflict.
pub uninterp spec fn three_way_merge(base: Seq<u8>, ours: Seq<u8>, theirs: Seq<u8>) -> Option<
    Seq<u8>,
>;

/// `diffy::merge_bytes`: the merge is a function of the three texts, named [`three_way_merge`].
/// A text with conflict markers, which it hands out where they conflict, is not used.
#[verifier::external_body]
fn merge_lines(base: &[u8], ours: &[u8], theirs: &[u8]) -> (r: Option<Vec<u8>>)
    ensures
        match r {
            Some(m) => three_way_merge(base@, ours@, theirs@) == Some(m@),
            None => three_way_merge(base@, ours@, theirs@) is None,
        },
{
    diffy::merge_bytes(base, ours, theirs).ok()
}

/// Whether content of a type is merged line by line.
pub open spec fn is_text_type(mime: Option<Seq<char>>) -> bool {
    mime matches Some(m) && ("text/"@.is_prefix_of(m) || m == "application/json"@ || m
        == "application/xml"@ || m == "application/javascript"@)
}

/// What a merge comes to, once the lines were merged (if it takes that).
pub open spec fn merge_of(
    local: Seq<u8>,
    cloud: Seq<u8>,
    base: Option<Seq<u8>>,
    mime: Option<Seq<char>>,
) -> MergeView {
    if !is_text_type(mime) {
        MergeView::Unsupported
    } else if local == cloud {
        MergeView::Success(local)
    } else {
        match base {
            None => MergeView::CannotMerge,
            Some(b) => if b == local {
                MergeView::Success(cloud)
            } else if b == cloud {
                MergeView::Success(local)
            } else {
                merged_or_not(three_way_merge(b, local, cloud))
            },
        }
    }
}

/// What merged lines, or none, come to.
pub open spec fn merged_or_not(merged: Option<Seq<u8>>) -> MergeView {
    match merged {
        Some(m) => MergeView::Success(m),
        None => MergeView::CannotMerge,
    }
}

/// The result of a merge of lines: conflict markers are never written back.
pub fn merge_outcome(merged: Option<Vec<u8>>) -> (r: MergeResult)
    ensures
        r@ == merged_or_not(
            match merged {
                Some(m) => Some(m@),
                None => None,
            },
        ),
{
    match merged {
        Some(m) => MergeResult::Success(m),
        None => MergeResult::CannotMerge,
    }
}

/// Attempt to merge two versions of a file.
///
/// Performs a line-based 3-way (diff3) merge of `local_content` and `cloud_content` against their
/// common ancestor `base_content`. Only text-like MIME types are merged. Without a base version a
/// true 3-way merge is impossible, so divergent content is reported as `CannotMerge`.
pub fn attempt_merge(
    local_content: &[u8],
    cloud_content: &[u8],
    base_content: Option<&[u8]>,
    mime_type: Option<&str>,
) -> (r: MergeResult)
    ensures
        r@ == merge_of(
            local_content@,
            cloud_content@,
            crate::mqtt_ws::bytes_of(base_content),
            crate::text::text_of_str(mime_type),
        ),
{
    let is_text = match mime_type {
        Some(m) => starts_with(m, "text/") || same(m, "application/json") || same(
            m,
            "application/xml",
        ) || same(m, "application/javascript"),
        None => false,
    };
    if !is_text {
        return MergeResult::Unsupported;
    }
    // Identical content: nothing to merge.
    if same_bytes(local_content, cloud_content) {
        return MergeResult::Success(vstd::slice::slice_to_vec(local_content));
    }
    let base = match base_content {
        Some(b) => b,
        // No common ancestor: cannot tell which side changed what.
        None => {
            return MergeResult::CannotMerge;
        },
    };
    // Only one side changed relative to the base: take that side.
    if same_bytes(base, local_content) {
        return MergeResult::Success(vstd::slice::slice_to_vec(cloud_content));
    }
    if same_bytes(base, cloud_content) {
        return MergeResult::Success(vstd::slice::slice_to_vec(local_content));
    }
    merge_outcome(merge_lines(base, local_content, cloud_content))
}

/// Whatever the strategy, a conflict is resolved to one version, to both, or left to the user;
/// only where the user is asked is it left.
pub proof fn law_only_asking_leaves_a_conflict_open(
    s: ConflictStrategy,
    c: Conflict,
    at: Timestamp,
)
    ensures
        resolution_of(s, c, at) is ManualRequired <==> s == ConflictStrategy::AskUser,
        !(resolution_of(s, c, at) is Merged),
        !(resolution_of(s, c, at) is Skip),
{
}

/// A conflict copy keeps the extension of the original, and what stood before it.
pub proof fn law_conflict_name_keeps_extension(name: Seq<char>, ext: Seq<char>, at: Timestamp)
    requires
        !ext.contains('.'),
    ensures
        conflict_name(name + seq!['.'] + ext, at) == name + "_conflict_"@ + crate::clock::compact(
            at.seconds,
            at.nanos,
        ) + seq!['.'] + ext,
{
    lemma_last_index_before(name, ext);
    let full = name + seq!['.'] + ext;
    assert(full.take(name.len() as int) =~= name);
    assert(full.skip(name.len() as int) =~= seq!['.'] + ext);
    assert(conflict_name(full, at) =~= name + "_conflict_"@ + crate::clock::compact(
        at.seconds,
        at.nanos,
    ) + seq!['.'] + ext);
}

proof fn lemma_last_index_before(name: Seq<char>, ext: Seq<char>)
    requires
        !ext.contains('.'),
    ensures
        crate::text::last_index(name + seq!['.'] + ext, '.') == Some(name.len()),
    decreases ext.len(),
{
    let full = name + seq!['.'] + ext;
    if ext.len() == 0 {
        assert(full.last() == '.');
    } else {
        assert(full.last() == ext.last());
        assert(ext.contains(ext[ext.len() - 1]));
        assert(full.drop_last() =~= name + seq!['.'] + ext.drop_last());
        assert forall|i: int| 0 <= i < ext.drop_last().len() implies ext.drop_last()[i] != '.' by {
            assert(ext.contains(ext[i]));
        }
        lemma_last_index_before(name, ext.drop_last());
    }
}

/// Where only one side has changed since the common ancestor, a text merges to that side; and a
/// merge of equal versions is that version.
pub proof fn law_unilateral_changes_merge(
    base: Seq<u8>,
    changed: Seq<u8>,
    mime: Option<Seq<char>>,
)
    requires
        is_text_type(mime),
    ensures
        merge_of(base, changed, Some(base), mime) == MergeView::Success(changed),
        merge_of(changed, base, Some(base), mime) == MergeView::Success(changed),
        merge_of(changed, changed, None, mime) == MergeView::Success(changed),
{
}

/// A name without an extension gets the time at its end.
pub proof fn law_conflict_name_without_extension(name: Seq<char>, at: Timestamp)
    requires
        !name.contains('.'),
    ensures
        conflict_name(name, at) == name + "_conflict_"@ + crate::clock::compact(
            at.seconds,
            at.nanos,
        ),
{
    crate::text::law_last_index(name, '.');
    assert(conflict_name(name, at) =~= name + "_conflict_"@ + crate::clock::compact(
        at.seconds,
        at.nanos,
    ));
}

/// A strategy that takes one side takes it for every conflict, whatever its kind and its times;
/// one that keeps both renames the cloud's version; and one that asks decides nothing.
pub proof fn law_a_fixed_strategy_settles_every_conflict(
    s: ConflictStrategy,
    c: Conflict,
    at: Timestamp,
)
    ensures
        s == ConflictStrategy::LocalWins ==> resolution_of(s, c, at) is UseLocal,
        s == ConflictStrategy::CloudWins ==> resolution_of(s, c, at) is UseCloud,
        s == ConflictStrategy::KeepBoth ==> resolution_of(s, c, at) is KeepBoth,
        s == ConflictStrategy::AskUser ==> resolution_of(s, c, at) is ManualRequired,
{
}

/// Where the newer version wins and both sides were modified, the later modification time decides;
/// where neither is later, both versions are kept.
pub proof fn law_the_later_version_wins(c: Conflict, at: Timestamp)
    requires
        c.conflict_type == ConflictType::BothModified || c.conflict_type
            == ConflictType::HashMismatch,
    ensures
        resolution_of(ConflictStrategy::NewerWins, c, at) is UseLocal <==> c.local_modified_at
            > c.cloud_file.modified_at,
        resolution_of(ConflictStrategy::NewerWins, c, at) is UseCloud <==> c.local_modified_at
            < c.cloud_file.modified_at,
        resolution_of(ConflictStrategy::NewerWins, c, at) is KeepBoth <==> c.local_modified_at
            == c.cloud_file.modified_at,
{
}

/// Where the newer version wins, a deletion never wins over a modification: the side that still
/// has the file keeps it. A file that became a folder, or the other way round, is kept as both.
pub proof fn law_a_modification_outlives_a_deletion(c: Conflict, at: Timestamp)
    ensures
        c.conflict_type == ConflictType::LocalDeletedCloudModified ==> resolution_of(
            ConflictStrategy::NewerWins,
            c,
            at,
        ) is UseCloud,
        c.conflict_type == ConflictType::LocalModifiedCloudDeleted ==> resolution_of(
            ConflictStrategy::NewerWins,
            c,
            at,
        ) is UseLocal,
        c.conflict_type == ConflictType::TypeChanged ==> resolution_of(
            ConflictStrategy::NewerWins,
            c,
            at,
        ) is KeepBoth,
{
}

/// Whenever both versions are kept, the new name is that of the cloud's file with the time in it:
/// before the extension, or at the end where there is none.
pub proof fn law_a_kept_copy_is_named_by_its_time(
    s: ConflictStrategy,
    c: Conflict,
    at: Timestamp,
    stem: Seq<char>,
    ext: Seq<char>,
)
    requires
        resolution_of(s, c, at) is KeepBoth,
        !ext.contains('.'),
    ensures
        c.cloud_file.name@ == stem + seq!['.'] + ext ==> resolution_of(s, c, at)
            == ResolutionView::KeepBoth(
            stem + "_conflict_"@ + crate::clock::compact(at.seconds, at.nanos) + seq!['.'] + ext,
        ),
        c.cloud_file.name@ == ext ==> resolution_of(s, c, at) == ResolutionView::KeepBoth(
            ext + "_conflict_"@ + crate::clock::compact(at.seconds, at.nanos),
        ),
{
    law_conflict_name_keeps_extension(stem, ext, at);
    law_conflict_name_without_extension(ext, at);
}

/// A conflict needs a change that the last sync has not seen: on both sides where both have the
/// file, and else on the side that still has it.
pub proof fn law_conflicts_come_from_unseen_changes(
    local_modified_at: i64,
    cloud_modified_at: i64,
    last_sync: i64,
)
    ensures
        conflict_between(local_modified_at, true, Some(cloud_modified_at), last_sync) == Some(
            ConflictType::BothModified,
        ) <==> local_modified_at > last_sync && cloud_modified_at > last_sync,
        conflict_between(local_modified_at, true, Some(cloud_modified_at), last_sync) is None
            <==> local_modified_at <= last_sync || cloud_modified_at <= last_sync,
        conflict_between(local_modified_at, false, Some(cloud_modified_at), last_sync) == Some(
            ConflictType::LocalDeletedCloudModified,
        ) <==> cloud_modified_at > last_sync,
        conflict_between(local_modified_at, false, Some(cloud_modified_at), last_sync) is None
            <==> cloud_modified_at <= last_sync,
        conflict_between(local_modified_at, true, None, last_sync) == Some(
            ConflictType::LocalModifiedCloudDeleted,
        ) <==> local_modified_at > last_sync,
        conflict_between(local_modified_at, true, None, last_sync) is None <==> local_modified_at
            <= last_sync,
        conflict_between(local_modified_at, false, None, last_sync) is None,
{
}

/// The name of a file is what follows the last slash of its path.
pub proof fn law_file_name_follows_the_last_slash(dir: Seq<char>, name: Seq<char>)
    requires
        name.len() > 0,
        name != "."@,
        name != ".."@,
        !name.contains('/'),
    ensures
        file_name(dir + seq!['/'] + name) == name,
        file_name(name) == name,
        file_name(dir + seq!['/'] + name + seq!['/']) == name,
{
    let whole = dir + seq!['/'] + name;
    crate::text::lemma_split_last(dir, name, '/');
    crate::text::lemma_split_whole(name, '/');
    assert(file_name(name) == name);
    assert(whole + seq!['/'] =~= whole.push('/'));
    assert(whole.push('/').drop_last() =~= whole);
    let all = crate::text::split_on(whole + seq!['/'], '/');
    assert(all.drop_last() =~= crate::text::split_on(whole, '/'));
    assert(all.last().len() == 0);
    assert(last_name(all) == last_name(crate::text::split_on(whole, '/')));
}

/// A merge never loses a change without saying so: what is not text is not merged, and where both
/// sides changed, the result is what a merge of lines makes of them against their common ancestor,
/// or nothing without one.
pub proof fn law_changes_of_both_sides_are_merged_by_line(
    local: Seq<u8>,
    cloud: Seq<u8>,
    base: Seq<u8>,
    mime: Seq<char>,
)
    requires
        local != cloud,
    ensures
        merge_of(local, cloud, Some(base), None) is Unsupported,
        !"text/"@.is_prefix_of(mime) && mime != "application/json"@ && mime != "application/xml"@
            && mime != "application/javascript"@ ==> merge_of(
            local,
            cloud,
            Some(base),
            Some(mime),
        ) is Unsupported,
        "text/"@.is_prefix_of(mime) || mime == "application/json"@ || mime == "application/xml"@
            || mime == "application/javascript"@ ==> {
            &&& merge_of(local, cloud, None, Some(mime)) is CannotMerge
            &&& base != local && base != cloud ==> match three_way_merge(base, local, cloud) {
                Some(lines) => merge_of(local, cloud, Some(base), Some(mime))
                    == MergeView::Success(lines),
                None => merge_of(local, cloud, Some(base), Some(mime)) is CannotMerge,
            }
        },
{
}

} // verus!

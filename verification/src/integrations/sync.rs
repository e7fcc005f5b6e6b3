//! Bidirectional sync between a local directory and cloud storage: which files are transferred,
//! in which direction, and what is remembered of it. Reading directories, and the transfers
//! themselves, are the caller's.

use vstd::prelude::*;
use vstd::string::*;

use crate::clock::Timestamp;
use crate::integrations::conflict::{
    Conflict, ConflictResolution, ConflictResolver, ConflictStrategy, ConflictType,
};
use crate::integrations::paths::{
    cloud_path_components, local_path_for, path_starts_with, sibling,
};
use crate::integrations::{CloudFile, CloudProvider, IntegrationError, SyncFolderConfig};
use crate::table::Table;
use crate::text::{quoted, to_chars};

verus! {

/// Sync direction.
#[derive(Debug, Clone, Copy, PartialEq, Eq, Structural)]
pub enum SyncDirection {
    /// Upload only (local to cloud).
    Upload,
    /// Download only (cloud to local).
    Download,
    /// Both ways.
    Bidirectional,
}

impl Default for SyncDirection {
    fn default() -> (r: Self)
        ensures
            r == SyncDirection::Bidirectional,
    {
        SyncDirection::Bidirectional
    }
}

/// Whether files go up.
pub open spec fn goes_up(d: SyncDirection) -> bool {
    d != SyncDirection::Download
}

/// Whether files come down.
pub open spec fn comes_down(d: SyncDirection) -> bool {
    d != SyncDirection::Upload
}

/// Sync status.
#[derive(Debug, Clone, Copy, PartialEq, Eq, Structural)]
pub enum SyncStatus {
    Success,
    PartialSuccess,
    Failed,
    Cancelled,
}

/// Sync operation result.
#[derive(Debug)]
pub struct SyncResult {
    pub status: SyncStatus,
    pub uploaded: usize,
    pub downloaded: usize,
    pub deleted: usize,
    pub conflicts: Vec<Conflict>,
    pub errors: Vec<String>,
    pub duration_ms: u64,
}

/// Sync configuration.
#[derive(Debug)]
pub struct SyncConfig {
    /// Local base path for sync.
    pub local_path: String,
    /// Cloud folder ID or path (`None` = root).
    pub cloud_folder: Option<String>,
    pub direction: SyncDirection,
    pub conflict_strategy: ConflictStrategy,
    /// Selective folder configs.
    pub folder_configs: Vec<SyncFolderConfig>,
    /// File patterns to leave out (glob).
    pub exclude_patterns: Vec<String>,
    /// Maximum file size to sync (bytes).
    pub max_file_size: Option<u64>,
    /// Sync hidden files (starting with `.`).
    pub sync_hidden: bool,
}

impl Default for SyncConfig {
    fn default() -> (r: Self)
        ensures
            r.local_path@ == "."@,
            r.cloud_folder is None,
            r.direction == SyncDirection::Bidirectional,
            r.conflict_strategy == ConflictStrategy::NewerWins,
            r.folder_configs@.len() == 0,
            crate::text::texts(r.exclude_patterns@) == seq![
                "*.tmp"@,
                "*.temp"@,
                ".DS_Store"@,
                "Thumbs.db"@,
            ],
            r.max_file_size == Some(104_857_600u64),
            !r.sync_hidden,
    {
        let exclude_patterns = vec![
            "*.tmp".to_owned(),
            "*.temp".to_owned(),
            ".DS_Store".to_owned(),
            "Thumbs.db".to_owned(),
        ];
        assert(crate::text::texts(exclude_patterns@) =~= seq![
            "*.tmp"@,
            "*.temp"@,
            ".DS_Store"@,
            "Thumbs.db"@,
        ]);
        SyncConfig {
            local_path: ".".to_owned(),
            cloud_folder: None,
            direction: SyncDirection::Bidirectional,
            conflict_strategy: ConflictStrategy::NewerWins,
            folder_configs: Vec::new(),
            exclude_patterns,
            max_file_size: Some(104_857_600),
            sync_hidden: false,
        }
    }
}

/// Sync state for tracking changes.
#[derive(Debug)]
pub struct SyncState {
    /// Last sync timestamp.
    pub last_sync: Option<i64>,
    /// Provider-specific cursor for delta sync.
    pub cursor: Option<String>,
    /// Local path to cloud file ID.
    pub file_map: Table<String>,
    /// Local path to last known hash.
    pub hash_map: Table<String>,
    /// Local path to last sync modification time.
    pub mtime_map: Table<i64>,
}

impl SyncState {
    pub open spec fn wf(&self) -> bool {
        self.file_map.wf() && self.hash_map.wf() && self.mtime_map.wf()
    }

    /// The modification time at the last transfer of the file at `path`; 0 if there was none.
    pub open spec fn seen(&self, path: Seq<char>) -> i64 {
        if self.mtime_map@.contains_key(path) {
            self.mtime_map@[path]
        } else {
            0
        }
    }
}

impl Default for SyncState {
    fn default() -> (r: Self)
        ensures
            r.wf(),
            r.last_sync is None,
            r.cursor is None,
            r.file_map@ == Map::<Seq<char>, String>::empty(),
            r.hash_map@ == Map::<Seq<char>, String>::empty(),
            r.mtime_map@ == Map::<Seq<char>, i64>::empty(),
    {
        SyncState {
            last_sync: None,
            cursor: None,
            file_map: Table::new(),
            hash_map: Table::new(),
            mtime_map: Table::new(),
        }
    }
}

/// A local file: where it is, when it was modified, and how large it is.
#[derive(Debug)]
pub struct LocalFile {
    pub full_path: String,
    pub modified_at: i64,
    pub size: u64,
}

impl Clone for LocalFile {
    fn clone(&self) -> (r: Self)
        ensures
            r == *self,
    {
        LocalFile {
            full_path: self.full_path.clone(),
            modified_at: self.modified_at,
            size: self.size,
        }
    }
}

/// Whether a name matches a pattern, in which `*` stands for any characters and `?` for one.
pub open spec fn glob(pattern: Seq<char>, name: Seq<char>) -> bool
    decreases pattern.len(),
{
    if pattern.len() == 0 {
        name.len() == 0
    } else if pattern[0] == '*' {
        exists|k: int| 0 <= k <= name.len() && glob(pattern.skip(1), #[trigger] name.skip(k))
    } else {
        name.len() > 0 && (pattern[0] == '?' || pattern[0] == name[0]) && glob(
            pattern.skip(1),
            name.skip(1),
        )
    }
}

/// Whether what is left of a name matches what is left of a pattern.
fn glob_from(pattern: &Vec<char>, i: usize, name: &Vec<char>, j: usize) -> (r: bool)
    requires
        i <= pattern@.len(),
        j <= name@.len(),
    ensures
        r == glob(pattern@.skip(i as int), name@.skip(j as int)),
    decreases pattern@.len() - i,
{
    let ghost p = pattern@.skip(i as int);
    let ghost n = name@.skip(j as int);
    if i == pattern.len() {
        return j == name.len();
    }
    assert(p[0] == pattern@[i as int]);
    assert(p.skip(1) =~= pattern@.skip(i as int + 1));
    if pattern[i] == '*' {
        let mut k: usize = j;
        loop
            invariant
                i < pattern.len(),
                j <= k <= name@.len(),
                p == pattern@.skip(i as int),
                n == name@.skip(j as int),
                p[0] == '*',
                p.len() > 0,
                p.skip(1) == pattern@.skip(i as int + 1),
                forall|m: int| 0 <= m < k - j ==> !glob(p.skip(1), #[trigger] n.skip(m)),
            decreases name@.len() - k,
        {
            assert(n.skip(k as int - j as int) =~= name@.skip(k as int));
            if glob_from(pattern, i + 1, name, k) {
                assert(glob(p.skip(1), n.skip(k as int - j as int)));
                return true;
            }
            if k == name.len() {
                assert forall|m: int| 0 <= m <= n.len() implies !glob(
                    p.skip(1),
                    #[trigger] n.skip(m),
                ) by {}
                return false;
            }
            k += 1;
        }
    }
    if j == name.len() {
        return false;
    }
    assert(n[0] == name@[j as int]);
    assert(n.skip(1) =~= name@.skip(j as int + 1));
    (pattern[i] == '?' || pattern[i] == name[j]) && glob_from(pattern, i + 1, name, j + 1)
}

/// What is to be done about a directory entry that a scan meets.
#[derive(Debug, Clone, Copy, PartialEq, Eq, Structural)]
pub enum ScanDecision {
    Skip,
    /// A directory to scan.
    Enter,
    /// A file to sync.
    Take,
}

/// Whether some pattern matches a name.
pub open spec fn excluded(patterns: Seq<Seq<char>>, name: Seq<char>) -> bool {
    exists|i: int| 0 <= i < patterns.len() && glob(#[trigger] patterns[i], name)
}

/// Whether a folder is synced, by the folders that are: one of them, one above, or one below.
pub open spec fn folder_synced(configs: Seq<SyncFolderConfig>, path: Seq<char>) -> bool {
    configs.len() == 0 || exists|i: int|
        0 <= i < configs.len() && {
            let local = (#[trigger] configs[i]).local_path@;
            crate::integrations::paths::lies_under(path, local)
                || crate::integrations::paths::lies_under(local, path)
        }
}

/// What is to be done about an entry of a scan.
pub open spec fn scan_decision(
    c: SyncConfig,
    name: Seq<char>,
    path: Seq<char>,
    is_dir: bool,
    size: u64,
) -> ScanDecision {
    if !c.sync_hidden && name.len() > 0 && name[0] == '.' {
        ScanDecision::Skip
    } else if excluded(crate::text::texts(c.exclude_patterns@), name) {
        ScanDecision::Skip
    } else if is_dir {
        if folder_synced(c.folder_configs@, path) {
            ScanDecision::Enter
        } else {
            ScanDecision::Skip
        }
    } else if c.max_file_size matches Some(max) && size > max {
        ScanDecision::Skip
    } else {
        ScanDecision::Take
    }
}

/// The files by their paths; of two with one path the last counts.
pub open spec fn by_path(files: Seq<CloudFile>) -> Map<Seq<char>, CloudFile>
    decreases files.len(),
{
    if files.len() == 0 {
        Map::empty()
    } else {
        by_path(files.drop_last()).insert(files.last().path@, files.last())
    }
}

/// The files by their paths.
pub fn cloud_table(files: &Vec<CloudFile>) -> (r: Table<CloudFile>)
    ensures
        r.wf(),
        r@ == by_path(files@),
{
    let mut out: Table<CloudFile> = Table::new();
    let mut i: usize = 0;
    assert(files@.take(0) =~= Seq::empty());
    while i < files.len()
        invariant
            i <= files@.len(),
            out.wf(),
            out@ == by_path(files@.take(i as int)),
        decreases files@.len() - i,
    {
        assert(files@.take(i as int + 1).drop_last() =~= files@.take(i as int));
        out.insert(files[i].path.clone(), files[i].clone());
        i += 1;
    }
    assert(files@.take(i as int) =~= files@);
    out
}

/// The keys of a table, in order.
pub open spec fn keys<V>(t: Table<V>) -> Seq<Seq<char>> {
    t.entries@.map_values(|e: (String, V)| e.0@)
}

/// Those of `ks` that satisfy `f`, in order.
pub open spec fn those(ks: Seq<Seq<char>>, f: spec_fn(Seq<char>) -> bool) -> Seq<Seq<char>>
    decreases ks.len(),
{
    if ks.len() == 0 {
        Seq::empty()
    } else {
        let before = those(ks.drop_last(), f);
        if f(ks.last()) {
            before.push(ks.last())
        } else {
            before
        }
    }
}

/// What a sync has to do: paths of files to upload because only the local side has them, to
/// download because only the cloud has them, and to compare because both do.
pub struct Partition {
    pub uploads: Vec<String>,
    pub downloads: Vec<String>,
    pub common: Vec<String>,
}

/// What is to be done about a file that both sides have.
#[derive(Debug)]
pub enum Decision {
    Nothing,
    Upload,
    Download,
    /// Download the cloud's version under another name.
    DownloadCopy(CloudFile),
    /// The user has to resolve this conflict.
    Ask(Conflict),
}

/// The copy of a cloud file under another name.
pub open spec fn renamed(
    f: crate::integrations::CloudFileView,
    name: Seq<char>,
) -> crate::integrations::CloudFileView {
    crate::integrations::CloudFileView {
        name,
        path: crate::integrations::paths::parent_of(f.path) + "/"@ + name,
        ..f
    }
}

/// Whether `d` is the decision for a file that both sides have.
pub open spec fn is_decision(
    d: Decision,
    direction: SyncDirection,
    strategy: ConflictStrategy,
    last_sync: Option<i64>,
    seen: i64,
    local: LocalFile,
    cloud: CloudFile,
    at: Timestamp,
) -> bool {
    let since = match last_sync {
        Some(t) => t,
        None => 0,
    };
    if local.modified_at > since && cloud.modified_at > since {
        let c = both_modified(local, cloud);
        match crate::integrations::conflict::resolution_of(strategy, c, at) {
            crate::integrations::conflict::ResolutionView::UseLocal => if goes_up(direction) {
                d == Decision::Upload
            } else {
                d == Decision::Nothing
            },
            crate::integrations::conflict::ResolutionView::UseCloud => if comes_down(direction) {
                d == Decision::Download
            } else {
                d == Decision::Nothing
            },
            crate::integrations::conflict::ResolutionView::KeepBoth(name) => if comes_down(
                direction,
            ) {
                d matches Decision::DownloadCopy(f) && f@ == renamed(cloud@, name)
            } else {
                d == Decision::Nothing
            },
            crate::integrations::conflict::ResolutionView::ManualRequired => d matches Decision::Ask(
                asked,
            ) && asked_conflict(asked, local, cloud, ConflictType::BothModified),
            _ => d == Decision::Nothing,
        }
    } else if local.modified_at > seen && goes_up(direction) {
        d == Decision::Upload
    } else if cloud.modified_at > seen && comes_down(direction) {
        d == Decision::Download
    } else {
        d == Decision::Nothing
    }
}

/// A conflict that the user is asked about.
pub open spec fn asked_conflict(
    c: Conflict,
    local: LocalFile,
    cloud: CloudFile,
    kind: ConflictType,
) -> bool {
    &&& c.local_path@ == local.full_path@
    &&& c.cloud_file == cloud
    &&& c.local_modified_at == local.modified_at
    &&& c.local_size == local.size
    &&& c.conflict_type == kind
    &&& c.resolution == Some(ConflictResolution::ManualRequired)
}

/// The conflicts that wait for the user once `d` is decided, `was` having waited before: one more
/// where the user is asked, which is not resolved yet.
pub open spec fn waiting(was: Seq<Conflict>, d: Decision) -> Seq<Conflict> {
    match d {
        Decision::Ask(c) => was.push(Conflict { resolution: None, ..c }),
        _ => was,
    }
}

/// Cloud sync engine.
pub struct CloudSync<P: CloudProvider> {
    pub provider: P,
    pub config: SyncConfig,
    pub state: SyncState,
    pub conflict_resolver: ConflictResolver,
}

impl<P: CloudProvider> CloudSync<P> {
    pub open spec fn wf(&self) -> bool {
        self.state.wf()
    }

    /// Whether only the state differs.
    pub open spec fn same_setup(self, other: Self) -> bool {
        &&& self.provider == other.provider
        &&& self.config == other.config
        &&& self.conflict_resolver == other.conflict_resolver
    }

    /// A sync that nothing was synced in yet.
    pub fn new(provider: P, config: SyncConfig) -> (r: Self)
        ensures
            r.wf(),
            r.provider == provider,
            r.config == config,
            r.state.last_sync is None,
            r.state.cursor is None,
            r.state.file_map@ == Map::<Seq<char>, String>::empty(),
            r.state.hash_map@ == Map::<Seq<char>, String>::empty(),
            r.state.mtime_map@ == Map::<Seq<char>, i64>::empty(),
            r.conflict_resolver.strategy() == config.conflict_strategy,
            r.conflict_resolver.pending() == Seq::<Conflict>::empty(),
    {
        let conflict_resolver = ConflictResolver::new(config.conflict_strategy);
        CloudSync { provider, config, state: SyncState::default(), conflict_resolver }
    }

    /// A sync that goes on from `state`.
    pub fn with_state(provider: P, config: SyncConfig, state: SyncState) -> (r: Self)
        ensures
            r.provider == provider,
            r.config == config,
            r.state == state,
            r.conflict_resolver.strategy() == config.conflict_strategy,
            r.conflict_resolver.pending() == Seq::<Conflict>::empty(),
    {
        let conflict_resolver = ConflictResolver::new(config.conflict_strategy);
        CloudSync { provider, config, state, conflict_resolver }
    }

    /// Get current sync state.
    pub fn state(&self) -> (r: &SyncState)
        ensures
            *r == self.state,
    {
        &self.state
    }

    /// Check if a name matches exclude patterns.
    pub fn should_exclude(&self, name: &str) -> (r: bool)
        ensures
            r == excluded(crate::text::texts(self.config.exclude_patterns@), name@),
    {
        let ghost all = crate::text::texts(self.config.exclude_patterns@);
        let mut i: usize = 0;
        while i < self.config.exclude_patterns.len()
            invariant
                i <= self.config.exclude_patterns@.len(),
                all == crate::text::texts(self.config.exclude_patterns@),
                forall|j: int| 0 <= j < i ==> !glob(#[trigger] all[j], name@),
            decreases self.config.exclude_patterns@.len() - i,
        {
            if Self::glob_match(self.config.exclude_patterns[i].as_str(), name) {
                assert(glob(all[i as int], name@));
                return true;
            }
            i += 1;
        }
        false
    }

    /// Simple glob matching (supports `*` and `?`).
    pub fn glob_match(pattern: &str, name: &str) -> (r: bool)
        ensures
            r == glob(pattern@, name@),
    {
        let p = to_chars(pattern);
        let n = to_chars(name);
        assert(p@.skip(0) =~= pattern@);
        assert(n@.skip(0) =~= name@);
        glob_from(&p, 0, &n, 0)
    }

    /// Check if a folder should be synced based on selective sync config.
    pub fn should_sync_folder(&self, path: &str) -> (r: bool)
        ensures
            r == folder_synced(self.config.folder_configs@, path@),
    {
        if self.config.folder_configs.len() == 0 {
            return true;  // Sync everything if no selective config.
        }
        let mut i: usize = 0;
        while i < self.config.folder_configs.len()
            invariant
                i <= self.config.folder_configs@.len(),
                self.config.folder_configs@.len() > 0,
                forall|j: int|
                    0 <= j < i ==> {
                        let local = (#[trigger] self.config.folder_configs@[j]).local_path@;
                        !crate::integrations::paths::lies_under(path@, local)
                            && !crate::integrations::paths::lies_under(local, path@)
                    },
            decreases self.config.folder_configs@.len() - i,
        {
            let local = self.config.folder_configs[i].local_path.as_str();
            if path_starts_with(path, local) || path_starts_with(local, path) {
                return true;
            }
            i += 1;
        }
        false
    }

    /// What to do about a directory entry that a scan meets: its name, its path, whether it is a
    /// directory, and else its size.
    pub fn scan_entry(&self, name: &str, path: &str, is_dir: bool, size: u64) -> (r: ScanDecision)
        ensures
            r == scan_decision(self.config, name@, path@, is_dir, size),
    {
        let cs = to_chars(name);
        // Skip hidden files if configured.
        if !self.config.sync_hidden && cs.len() > 0 && cs[0] == '.' {
            return ScanDecision::Skip;
        }
        if self.should_exclude(name) {
            return ScanDecision::Skip;
        }
        if is_dir {
            // Check if folder is in selective sync.
            return if self.should_sync_folder(path) {
                ScanDecision::Enter
            } else {
                ScanDecision::Skip
            };
        }
        match self.config.max_file_size {
            Some(max) => {
                if size > max {
                    ScanDecision::Skip
                } else {
                    ScanDecision::Take
                }
            },
            None => ScanDecision::Take,
        }
    }

    /// Which files only one side has, and which both: what goes up, what comes down (folders do
    /// not), and what is to be compared.
    pub fn partition(&self, local: &Table<LocalFile>, cloud: &Table<CloudFile>) -> (r: Partition)
        requires
            local.wf(),
            cloud.wf(),
        ensures
            crate::text::texts(r.uploads@) == (if goes_up(self.config.direction) {
                those(keys(*local), |k: Seq<char>| !cloud@.contains_key(k))
            } else {
                Seq::empty()
            }),
            crate::text::texts(r.downloads@) == (if comes_down(self.config.direction) {
                those(
                    keys(*cloud),
                    |k: Seq<char>| !local@.contains_key(k) && !cloud@[k].is_folder,
                )
            } else {
                Seq::empty()
            }),
            crate::text::texts(r.common@) == those(
                keys(*local),
                |k: Seq<char>| cloud@.contains_key(k),
            ),
    {
        let mut uploads: Vec<String> = Vec::new();
        let mut downloads: Vec<String> = Vec::new();
        let mut common: Vec<String> = Vec::new();
        let up = self.config.direction != SyncDirection::Download;
        let down = self.config.direction != SyncDirection::Upload;
        let ghost lk = keys(*local);
        let ghost ck = keys(*cloud);
        let ghost not_cloud = |k: Seq<char>| !cloud@.contains_key(k);
        let ghost in_cloud = |k: Seq<char>| cloud@.contains_key(k);
        let ghost new_file = |k: Seq<char>| !local@.contains_key(k) && !cloud@[k].is_folder;
        let mut i: usize = 0;
        assert(lk.take(0) =~= Seq::empty());
        assert(crate::text::texts(uploads@) =~= Seq::empty());
        assert(crate::text::texts(common@) =~= Seq::empty());
        assert(crate::text::texts(downloads@) =~= Seq::empty());
        while i < local.entries.len()
            invariant
                i <= local.entries@.len(),
                cloud.wf(),
                lk == keys(*local),
                not_cloud == (|k: Seq<char>| !cloud@.contains_key(k)),
                in_cloud == (|k: Seq<char>| cloud@.contains_key(k)),
                crate::text::texts(uploads@) == (if up {
                    those(lk.take(i as int), not_cloud)
                } else {
                    Seq::empty()
                }),
                crate::text::texts(common@) == those(lk.take(i as int), in_cloud),
            decreases local.entries@.len() - i,
        {
            let k = local.entries[i].0.as_str();
            assert(lk.take(i as int + 1).drop_last() =~= lk.take(i as int));
            assert(lk.take(i as int + 1).last() == k@);
            if cloud.contains(k) {
                let ghost was = crate::text::texts(common@);
                common.push(k.to_owned());
                assert(crate::text::texts(common@) =~= was.push(k@));
            } else if up {
                let ghost was = crate::text::texts(uploads@);
                uploads.push(k.to_owned());
                assert(crate::text::texts(uploads@) =~= was.push(k@));
            }
            i += 1;
        }
        assert(lk.take(i as int) =~= lk);
        if down {
            proof {
                crate::table::lemma_map_of(cloud.entries@);
            }
            let mut i: usize = 0;
            assert(ck.take(0) =~= Seq::empty());
            while i < cloud.entries.len()
                invariant
                    i <= cloud.entries@.len(),
                    local.wf(),
                    ck == keys(*cloud),
                    new_file == (|k: Seq<char>|
                        !local@.contains_key(k) && !cloud@[k].is_folder),
                    forall|j: int|
                        0 <= j < cloud.entries@.len() ==> cloud@[(
                        #[trigger] cloud.entries@[j]).0@] == cloud.entries@[j].1,
                    crate::text::texts(downloads@) == those(ck.take(i as int), new_file),
                decreases cloud.entries@.len() - i,
            {
                let k = cloud.entries[i].0.as_str();
                assert(ck.take(i as int + 1).drop_last() =~= ck.take(i as int));
                assert(ck.take(i as int + 1).last() == k@);
                if !local.contains(k) && !cloud.entries[i].1.is_folder {
                    let ghost was = crate::text::texts(downloads@);
                    downloads.push(k.to_owned());
                    assert(crate::text::texts(downloads@) =~= was.push(k@));
                }
                i += 1;
            }
            assert(ck.take(i as int) =~= ck);
        }
        Partition { uploads, downloads, common }
    }

    /// What to do, at `at`, about the file at `path`, which both sides have.
    pub fn decide(
        &mut self,
        path: &str,
        local: &LocalFile,
        cloud: &CloudFile,
        at: Timestamp,
    ) -> (r: Decision)
        requires
            old(self).wf(),
            at.valid(),
        ensures
            final(self).wf(),
            final(self).config == old(self).config,
            final(self).state == old(self).state,
            final(self).provider == old(self).provider,
            final(self).conflict_resolver.strategy() == old(self).conflict_resolver.strategy(),
            is_decision(
                r,
                old(self).config.direction,
                old(self).conflict_resolver.strategy(),
                old(self).state.last_sync,
                old(self).state.seen(path@),
                *local,
                *cloud,
                at,
            ),
            final(self).conflict_resolver.pending() == waiting(
                old(self).conflict_resolver.pending(),
                r,
            ),
            ({
                let strategy = old(self).conflict_resolver.strategy();
                let direction = old(self).config.direction;
                let since = match old(self).state.last_sync {
                    Some(t) => t,
                    None => 0,
                };
                local.modified_at > since && cloud.modified_at > since ==> {
                    &&& strategy == ConflictStrategy::LocalWins || (strategy
                        == ConflictStrategy::NewerWins && local.modified_at
                        > cloud.modified_at) ==> r == (if direction != SyncDirection::Download {
                        Decision::Upload
                    } else {
                        Decision::Nothing
                    })
                    &&& strategy == ConflictStrategy::CloudWins || (strategy
                        == ConflictStrategy::NewerWins && local.modified_at
                        < cloud.modified_at) ==> r == (if direction != SyncDirection::Upload {
                        Decision::Download
                    } else {
                        Decision::Nothing
                    })
                }
            }),
    {
        let direction = self.config.direction;
        let conflict = ConflictResolver::detect_conflict(
            local.full_path.as_str(),
            local.modified_at,
            local.size,
            true,
            Some(cloud),
            self.state.last_sync,
        );
        match conflict {
            Some(mut conflict) => {
                let resolution = self.conflict_resolver.resolve_at(&mut conflict, at);
                match resolution {
                    ConflictResolution::UseLocal => {
                        if direction != SyncDirection::Download {
                            Decision::Upload
                        } else {
                            Decision::Nothing
                        }
                    },
                    ConflictResolution::UseCloud => {
                        if direction != SyncDirection::Upload {
                            Decision::Download
                        } else {
                            Decision::Nothing
                        }
                    },
                    ConflictResolution::KeepBoth { renamed_to } => {
                        if direction != SyncDirection::Upload {
                            let mut copy = cloud.clone();
                            copy.path = sibling(cloud.path.as_str(), renamed_to.as_str());
                            copy.name = renamed_to;
                            Decision::DownloadCopy(copy)
                        } else {
                            Decision::Nothing
                        }
                    },
                    ConflictResolution::ManualRequired => Decision::Ask(conflict),
                    _ => Decision::Nothing,
                }
            },
            None => {
                // No conflict: sync based on modification time.
                let seen: i64 = match self.state.mtime_map.get(path) {
                    Some(t) => *t,
                    None => 0,
                };
                if local.modified_at > seen && direction != SyncDirection::Download {
                    Decision::Upload
                } else if cloud.modified_at > seen && direction != SyncDirection::Upload {
                    Decision::Download
                } else {
                    Decision::Nothing
                }
            },
        }
    }

    /// The upload of the local file at `path`, modified at `modified_at`, came to `outcome`.
    pub fn record_upload(
        &mut self,
        path: &str,
        modified_at: i64,
        outcome: Result<CloudFile, IntegrationError>,
        run: &mut SyncRun,
    )
        requires
            old(self).wf(),
            old(run).result.uploaded < usize::MAX,
        ensures
            final(self).wf(),
            final(self).same_setup(*old(self)),
            match outcome {
                Ok(file) => {
                    &&& transferred(old(self).state, final(self).state, path@, file, modified_at)
                    &&& *final(run) == (SyncRun {
                        result: SyncResult {
                            uploaded: (old(run).result.uploaded + 1) as usize,
                            ..old(run).result
                        },
                        ..*old(run)
                    })
                },
                Err(e) => {
                    &&& final(self).state == old(self).state
                    &&& failed(
                        *old(run),
                        *final(run),
                        "Upload "@ + path@ + " failed: "@ + crate::integrations::error_text(e@),
                        e@,
                    )
                },
            },
    {
        match outcome {
            Ok(file) => {
                self.note(path, modified_at, &file);
                run.result.uploaded = run.result.uploaded + 1;
            },
            Err(e) => {
                let mut what = "Upload ".to_owned();
                what.push_str(path);
                what.push_str(" failed: ");
                run.fail(what, &e);
            },
        }
    }

    /// The download of `file` came to `outcome`.
    pub fn record_download(
        &mut self,
        file: &CloudFile,
        outcome: Result<(), IntegrationError>,
        run: &mut SyncRun,
    )
        requires
            old(self).wf(),
            old(run).result.downloaded < usize::MAX,
        ensures
            final(self).wf(),
            final(self).same_setup(*old(self)),
            downloaded(
                old(self).state,
                final(self).state,
                *old(run),
                *final(run),
                *file,
                outcome,
                "Download "@ + file.path@ + " failed: "@,
            ),
    {
        let mut what = "Download ".to_owned();
        what.push_str(file.path.as_str());
        what.push_str(" failed: ");
        self.record(file, outcome, what, run);
    }

    /// The download of the conflict copy `file` came to `outcome`.
    pub fn record_copy(
        &mut self,
        file: &CloudFile,
        outcome: Result<(), IntegrationError>,
        run: &mut SyncRun,
    )
        requires
            old(self).wf(),
            old(run).result.downloaded < usize::MAX,
        ensures
            final(self).wf(),
            final(self).same_setup(*old(self)),
            downloaded(
                old(self).state,
                final(self).state,
                *old(run),
                *final(run),
                *file,
                outcome,
                "Download conflict copy failed: "@,
            ),
    {
        self.record(file, outcome, "Download conflict copy failed: ".to_owned(), run);
    }

    /// The download of the changed `file` came to `outcome`.
    pub fn record_change(
        &mut self,
        file: &CloudFile,
        outcome: Result<(), IntegrationError>,
        run: &mut SyncRun,
    )
        requires
            old(self).wf(),
            old(run).result.downloaded < usize::MAX,
        ensures
            final(self).wf(),
            final(self).same_setup(*old(self)),
            downloaded(
                old(self).state,
                final(self).state,
                *old(run),
                *final(run),
                *file,
                outcome,
                "Download failed: "@,
            ),
    {
        self.record(file, outcome, "Download failed: ".to_owned(), run);
    }

    fn record(
        &mut self,
        file: &CloudFile,
        outcome: Result<(), IntegrationError>,
        what: String,
        run: &mut SyncRun,
    )
        requires
            old(self).wf(),
            old(run).result.downloaded < usize::MAX,
        ensures
            final(self).wf(),
            final(self).same_setup(*old(self)),
            downloaded(
                old(self).state,
                final(self).state,
                *old(run),
                *final(run),
                *file,
                outcome,
                what@,
            ),
    {
        match outcome {
            Ok(_) => {
                self.note(file.path.as_str(), file.modified_at, file);
                run.result.downloaded = run.result.downloaded + 1;
            },
            Err(e) => {
                run.fail(what, &e);
            },
        }
    }

    fn note(&mut self, path: &str, modified_at: i64, file: &CloudFile)
        requires
            old(self).wf(),
        ensures
            final(self).wf(),
            final(self).same_setup(*old(self)),
            transferred(old(self).state, final(self).state, path@, *file, modified_at),
    {
        self.state.file_map.insert(path.to_owned(), file.id.clone());
        if let Some(hash) = &file.content_hash {
            self.state.hash_map.insert(path.to_owned(), hash.clone());
        }
        self.state.mtime_map.insert(path.to_owned(), modified_at);
    }

    /// The full sync is over, at `seconds`: its status is set and its time remembered.
    pub fn finish_sync(&mut self, run: &mut SyncRun, seconds: i64)
        requires
            old(self).wf(),
        ensures
            final(self).wf(),
            final(self).same_setup(*old(self)),
            final(self).state == (SyncState { last_sync: Some(seconds), ..old(self).state }),
            *final(run) == (SyncRun {
                result: SyncResult {
                    status: if old(run).result.errors@.len() == 0 {
                        old(run).result.status
                    } else if old(run).result.uploaded > 0 || old(run).result.downloaded > 0 {
                        SyncStatus::PartialSuccess
                    } else {
                        SyncStatus::Failed
                    },
                    ..old(run).result
                },
                ..*old(run)
            }),
    {
        self.state.last_sync = Some(seconds);
        if run.result.errors.len() > 0 {
            run.result.status = if run.result.uploaded > 0 || run.result.downloaded > 0 {
                SyncStatus::PartialSuccess
            } else {
                SyncStatus::Failed
            };
        }
    }

    /// What a change calls for before the local side is looked at: nothing for a folder or a
    /// deletion, an error for a path that is not safe, and else a look at the local path.
    pub fn change_path(&self, change: &CloudFile, run: &mut SyncRun) -> (r: Option<String>)
        ensures
            ({
                let rel = crate::integrations::paths::unrooted(change.path@);
                if change.is_folder || change.deleted {
                    r is None && *final(run) == *old(run)
                } else {
                    match crate::integrations::paths::path_fault(rel) {
                        None => {
                            &&& *final(run) == *old(run)
                            &&& r matches Some(p) && p@ == crate::integrations::paths::descend(
                                self.config.local_path@,
                                crate::text::split_on(rel, '/'),
                            )
                        },
                        Some(why) => {
                            let e = crate::integrations::IntegrationErrorView::InvalidPath(
                                crate::integrations::paths::refusal(rel, why),
                            );
                            &&& r is None
                            &&& failed(
                                *old(run),
                                *final(run),
                                "Skipped "@ + change.path@ + ": "@
                                    + crate::integrations::error_text(e),
                                e,
                            )
                        },
                    }
                }
            }),
    {
        if change.is_folder || change.deleted {
            return None;
        }
        match local_path_for(self.config.local_path.as_str(), change.path.as_str()) {
            Ok(p) => Some(p),
            Err(e) => {
                let mut what = "Skipped ".to_owned();
                what.push_str(change.path.as_str());
                what.push_str(": ");
                run.fail(what, &e);
                None
            },
        }
    }

    /// What to do, at `at`, about a changed file whose local path was looked at; `local` is what
    /// is there. Where nothing is there, or nothing newer than what was last synced, the change
    /// is downloaded; else it is a conflict.
    pub fn decide_change(
        &mut self,
        change: &CloudFile,
        local: Option<LocalFile>,
        at: Timestamp,
    ) -> (r: Decision)
        requires
            old(self).wf(),
            at.valid(),
        ensures
            final(self).wf(),
            final(self).config == old(self).config,
            final(self).state == old(self).state,
            final(self).provider == old(self).provider,
            final(self).conflict_resolver.strategy() == old(self).conflict_resolver.strategy(),
            final(self).conflict_resolver.pending() == waiting(
                old(self).conflict_resolver.pending(),
                r,
            ),
            match local {
                None => r == Decision::Download,
                Some(local) => if local.modified_at <= old(self).state.seen(change.path@) {
                    r == Decision::Download
                } else {
                    match crate::integrations::conflict::resolution_of(
                        old(self).conflict_resolver.strategy(),
                        both_modified(local, *change),
                        at,
                    ) {
                        crate::integrations::conflict::ResolutionView::UseCloud => r
                            == Decision::Download,
                        crate::integrations::conflict::ResolutionView::ManualRequired =>
                        r matches Decision::Ask(c) && asked_conflict(
                            c,
                            local,
                            *change,
                            ConflictType::BothModified,
                        ),
                        _ => r == Decision::Nothing,
                    }
                },
            },
            match local {
                Some(mine) => mine.modified_at > old(self).state.seen(change.path@) ==> {
                    let strategy = old(self).conflict_resolver.strategy();
                    &&& strategy == ConflictStrategy::LocalWins ==> r == Decision::Nothing
                    &&& strategy == ConflictStrategy::CloudWins ==> r == Decision::Download
                    &&& strategy == ConflictStrategy::NewerWins && mine.modified_at
                        < change.modified_at ==> r == Decision::Download
                    &&& strategy == ConflictStrategy::NewerWins && mine.modified_at
                        >= change.modified_at ==> r == Decision::Nothing
                    &&& strategy == ConflictStrategy::AskUser ==> r is Ask
                },
                None => true,
            },
    {
        let local = match local {
            Some(l) => l,
            None => {
                return Decision::Download;
            },
        };
        let seen: i64 = match self.state.mtime_map.get(change.path.as_str()) {
            Some(t) => *t,
            None => 0,
        };
        if local.modified_at <= seen {
            return Decision::Download;
        }
        // Local modified since last sync: conflict.
        let mut conflict = Conflict {
            local_path: local.full_path,
            cloud_file: change.clone(),
            local_modified_at: local.modified_at,
            local_size: local.size,
            conflict_type: ConflictType::BothModified,
            resolution: None,
        };
        let resolution = self.conflict_resolver.resolve_at(&mut conflict, at);
        match resolution {
            ConflictResolution::UseCloud => Decision::Download,
            ConflictResolution::ManualRequired => Decision::Ask(conflict),
            _ => Decision::Nothing,
        }
    }

    /// The delta sync is over, at `seconds`: its time is remembered, and the cursor moves on to
    /// `cursor` unless something failed that may go well another time.
    pub fn finish_delta(&mut self, cursor: Option<String>, run: &mut SyncRun, seconds: i64)
        requires
            old(self).wf(),
        ensures
            final(self).wf(),
            final(self).same_setup(*old(self)),
            final(self).state == (SyncState {
                last_sync: Some(seconds),
                cursor: if old(run).transient {
                    old(self).state.cursor
                } else {
                    cursor
                },
                ..old(self).state
            }),
            *final(run) == (SyncRun {
                result: SyncResult {
                    status: if old(run).result.errors@.len() == 0 {
                        old(run).result.status
                    } else {
                        SyncStatus::PartialSuccess
                    },
                    ..old(run).result
                },
                ..*old(run)
            }),
    {
        self.advance(cursor, run);
        self.state.last_sync = Some(seconds);
        if run.result.errors.len() > 0 {
            run.result.status = SyncStatus::PartialSuccess;
        }
    }

    /// The full sync that stood in for a delta sync is over: the cursor moves on to `cursor`,
    /// which was taken before it, unless something failed that may go well another time.
    pub fn finish_resync(&mut self, cursor: Option<String>, run: &SyncRun)
        requires
            old(self).wf(),
        ensures
            final(self).wf(),
            final(self).same_setup(*old(self)),
            final(self).state == (SyncState {
                cursor: if run.transient {
                    old(self).state.cursor
                } else {
                    cursor
                },
                ..old(self).state
            }),
    {
        self.advance(cursor, run);
    }

    fn advance(&mut self, cursor: Option<String>, run: &SyncRun)
        requires
            old(self).wf(),
        ensures
            final(self).wf(),
            final(self).same_setup(*old(self)),
            final(self).state == (SyncState {
                cursor: if run.transient {
                    old(self).state.cursor
                } else {
                    cursor
                },
                ..old(self).state
            }),
    {
        if !run.transient {
            self.state.cursor = cursor;
        }
    }
}

/// The directories, one below the other, and the name under which a cloud file is stored; a
/// cloud path that is not safe is refused.
pub fn download_target(cloud_path: &str) -> (r: Result<(Vec<String>, String), IntegrationError>)
    ensures
        ({
            let rel = crate::integrations::paths::unrooted(cloud_path@);
            let names = crate::text::split_on(rel, '/');
            match crate::integrations::paths::path_fault(rel) {
                None => r matches Ok((dirs, name)) && crate::text::texts(dirs@).push(name@) == names,
                Some(why) => r matches Err(e) && e@
                    == crate::integrations::IntegrationErrorView::InvalidPath(
                    crate::integrations::paths::refusal(rel, why),
                ),
            }
        }),
{
    let parts = match cloud_path_components(cloud_path) {
        Ok(p) => p,
        Err(e) => {
            return Err(e);
        },
    };
    let ghost names = crate::text::slice_texts(parts@);
    proof {
        crate::text::lemma_split_nonempty(crate::integrations::paths::unrooted(cloud_path@), '/');
    }
    let last: usize = parts.len() - 1;
    let mut dirs: Vec<String> = Vec::new();
    let mut i: usize = 0;
    assert(crate::text::texts(dirs@) =~= names.take(0));
    while i < last
        invariant
            i <= last < parts@.len(),
            names == crate::text::slice_texts(parts@),
            crate::text::texts(dirs@) == names.take(i as int),
        decreases last - i,
    {
        let ghost was = crate::text::texts(dirs@);
        dirs.push(parts[i].to_owned());
        assert(crate::text::texts(dirs@) =~= was.push(names[i as int]));
        assert(names.take(i as int + 1) =~= was.push(names[i as int]));
        i += 1;
    }
    let name = parts[last].to_owned();
    assert(names.take(i as int).push(name@) =~= names);
    Ok((dirs, name))
}

/// Whether a directory entry that already exists, and really is at `resolved`, may be gone down into:
/// only a directory under the root.
pub fn may_enter(root: &str, resolved: &str, is_dir: bool) -> (r: bool)
    ensures
        r == (is_dir && crate::integrations::paths::lies_under(resolved@, root@)),
{
    path_starts_with(resolved, root) && is_dir
}

/// The error for a cloud file whose local path turns out to lead outside the sync root.
pub fn escapes(cloud_path: &str) -> (r: IntegrationError)
    ensures
        r@ == crate::integrations::IntegrationErrorView::InvalidPath(
            crate::text::debug_text(cloud_path@) + " resolves outside sync root"@,
        ),
{
    let mut out = quoted(cloud_path);
    out.push_str(" resolves outside sync root");
    IntegrationError::InvalidPath(out)
}

/// The name of the temporary file that becomes a downloaded file when it is complete.
pub fn temporary_name(id: &str) -> (r: String)
    ensures
        r@ == ".rms-sync-"@ + id@ + ".tmp"@,
{
    let mut out = ".rms-sync-".to_owned();
    out.push_str(id);
    out.push_str(".tmp");
    out
}

/// A sync in progress: what it came to so far, and whether something failed that may go well
/// another time.
#[derive(Debug)]
pub struct SyncRun {
    pub result: SyncResult,
    pub transient: bool,
}

impl SyncRun {
    pub fn new() -> (r: Self)
        ensures
            !r.transient,
            r.result.status == SyncStatus::Success,
            r.result.uploaded == 0,
            r.result.downloaded == 0,
            r.result.deleted == 0,
            r.result.conflicts@.len() == 0,
            r.result.errors@.len() == 0,
            r.result.duration_ms == 0,
    {
        SyncRun {
            result: SyncResult {
                status: SyncStatus::Success,
                uploaded: 0,
                downloaded: 0,
                deleted: 0,
                conflicts: Vec::new(),
                errors: Vec::new(),
                duration_ms: 0,
            },
            transient: false,
        }
    }

    /// One side could not be listed: the sync fails with the error, and nothing else is done.
    pub fn listing_failed(&mut self, cloud: bool, error: &IntegrationError)
        ensures
            failed(
                SyncRun {
                    result: SyncResult { status: SyncStatus::Failed, ..old(self).result },
                    ..*old(self)
                },
                *final(self),
                (if cloud {
                    "Failed to list cloud files: "@
                } else {
                    "Failed to list local files: "@
                }) + crate::integrations::error_text(error@),
                error@,
            ),
    {
        self.result.status = SyncStatus::Failed;
        let what = if cloud {
            "Failed to list cloud files: ".to_owned()
        } else {
            "Failed to list local files: ".to_owned()
        };
        self.fail(what, error);
    }

    /// The user has to resolve a conflict.
    pub fn record_conflict(&mut self, conflict: Conflict)
        ensures
            final(self).transient == old(self).transient,
            final(self).result.conflicts@ == old(self).result.conflicts@.push(conflict),
            final(self).result == (SyncResult {
                conflicts: final(self).result.conflicts,
                ..old(self).result
            }),
    {
        self.result.conflicts.push(conflict);
    }

    fn fail(&mut self, what: String, error: &IntegrationError)
        ensures
            failed(
                *old(self),
                *final(self),
                what@ + crate::integrations::error_text(error@),
                error@,
            ),
    {
        let mut what = what;
        what.push_str(error.message().as_str());
        let ghost was = crate::text::texts(self.result.errors@);
        let ghost text = what@;
        self.result.errors.push(what);
        assert(crate::text::texts(self.result.errors@) =~= was.push(text));
        if !error.is_permanent() {
            self.transient = true;
        }
    }
}

/// Something failed: its text is added, and the run is marked if trying again may help.
pub open spec fn failed(
    before: SyncRun,
    after: SyncRun,
    text: Seq<char>,
    error: crate::integrations::IntegrationErrorView,
) -> bool {
    &&& crate::text::texts(after.result.errors@) == crate::text::texts(
        before.result.errors@,
    ).push(text)
    &&& after.result == (SyncResult { errors: after.result.errors, ..before.result })
    &&& after.transient == (before.transient || !crate::integrations::permanent(error))
}

/// A download came to `outcome`: it is remembered and counted, or its failure is.
pub open spec fn downloaded(
    before: SyncState,
    after: SyncState,
    run_before: SyncRun,
    run_after: SyncRun,
    file: CloudFile,
    outcome: Result<(), IntegrationError>,
    what: Seq<char>,
) -> bool {
    match outcome {
        Ok(_) => {
            &&& transferred(before, after, file.path@, file, file.modified_at)
            &&& run_after == (SyncRun {
                result: SyncResult {
                    downloaded: (run_before.result.downloaded + 1) as usize,
                    ..run_before.result
                },
                ..run_before
            })
        },
        Err(e) => {
            &&& after == before
            &&& failed(
                run_before,
                run_after,
                what + crate::integrations::error_text(e@),
                e@,
            )
        },
    }
}

/// The conflict between a local file and a cloud file that both changed.
pub open spec fn both_modified(local: LocalFile, cloud: CloudFile) -> Conflict {
    Conflict {
        local_path: local.full_path,
        cloud_file: cloud,
        local_modified_at: local.modified_at,
        local_size: local.size,
        conflict_type: ConflictType::BothModified,
        resolution: None,
    }
}

/// What is remembered of a transfer.
pub open spec fn transferred(
    before: SyncState,
    after: SyncState,
    path: Seq<char>,
    file: CloudFile,
    modified_at: i64,
) -> bool {
    &&& after.last_sync == before.last_sync
    &&& after.cursor == before.cursor
    &&& after.file_map@ == before.file_map@.insert(path, file.id)
    &&& after.hash_map@ == (match file.content_hash {
        Some(h) => before.hash_map@.insert(path, h),
        None => before.hash_map@,
    })
    &&& after.mtime_map@ == before.mtime_map@.insert(path, modified_at)
}

/// Whether `k` is among `those(ks, f)` exactly if it is among `ks` and satisfies `f`.
pub proof fn lemma_those(ks: Seq<Seq<char>>, f: spec_fn(Seq<char>) -> bool, k: Seq<char>)
    ensures
        those(ks, f).contains(k) == (ks.contains(k) && f(k)),
    decreases ks.len(),
{
    if ks.len() > 0 {
        let rest = ks.drop_last();
        lemma_those(rest, f, k);
        assert(ks =~= rest.push(ks.last()));
        let before = those(rest, f);
        assert(before.push(ks.last()).contains(k) == (before.contains(k) || k == ks.last())) by {
            assert(before.push(ks.last())[before.len() as int] == ks.last());
            if before.contains(k) {
                let i = choose|i: int| 0 <= i < before.len() && before[i] == k;
                assert(before.push(ks.last())[i] == k);
            }
        }
        assert(ks.contains(k) == (rest.contains(k) || k == ks.last())) by {
            assert(ks[ks.len() - 1] == ks.last());
            if rest.contains(k) {
                let i = choose|i: int| 0 <= i < rest.len() && rest[i] == k;
                assert(ks[i] == k);
            }
            if ks.contains(k) && k != ks.last() {
                let i = choose|i: int| 0 <= i < ks.len() && ks[i] == k;
                assert(rest[i] == k);
            }
        }
    }
}

/// The keys of a table are those that it maps.
proof fn lemma_keys<V>(t: Table<V>, k: Seq<char>)
    requires
        t.wf(),
    ensures
        keys(t).contains(k) == t@.contains_key(k),
{
    crate::table::lemma_map_of(t.entries@);
    if t@.contains_key(k) {
        let i = choose|i: int| 0 <= i < t.entries@.len() && (#[trigger] t.entries@[i]).0@ == k;
        assert(keys(t)[i] == k);
    }
    if keys(t).contains(k) {
        let i = choose|i: int| 0 <= i < keys(t).len() && keys(t)[i] == k;
        assert(t.entries@[i].0@ == k);
    }
}

/// In a sync of both directions each path that either side has is dealt with, and in one way
/// only: uploaded if only the local side has it, compared if both do, and downloaded if only the
/// cloud has it, unless it is a folder.
pub proof fn law_every_path_has_one_task(
    local: Table<LocalFile>,
    cloud: Table<CloudFile>,
    k: Seq<char>,
)
    requires
        local.wf(),
        cloud.wf(),
    ensures
        those(keys(local), |k: Seq<char>| !cloud@.contains_key(k)).contains(k) == (
        local@.contains_key(k) && !cloud@.contains_key(k)),
        those(keys(local), |k: Seq<char>| cloud@.contains_key(k)).contains(k) == (
        local@.contains_key(k) && cloud@.contains_key(k)),
        those(
            keys(cloud),
            |k: Seq<char>| !local@.contains_key(k) && !cloud@[k].is_folder,
        ).contains(k) == (cloud@.contains_key(k) && !local@.contains_key(k)
            && !cloud@[k].is_folder),
{
    lemma_keys(local, k);
    lemma_keys(cloud, k);
    lemma_those(keys(local), |k: Seq<char>| !cloud@.contains_key(k), k);
    lemma_those(keys(local), |k: Seq<char>| cloud@.contains_key(k), k);
    lemma_those(
        keys(cloud),
        |k: Seq<char>| !local@.contains_key(k) && !cloud@[k].is_folder,
        k,
    );
}

/// A sync that only downloads uploads nothing, and one that only uploads downloads nothing.
pub proof fn law_direction_is_respected(
    d: Decision,
    direction: SyncDirection,
    strategy: ConflictStrategy,
    last_sync: Option<i64>,
    seen: i64,
    local: LocalFile,
    cloud: CloudFile,
    at: Timestamp,
)
    requires
        is_decision(d, direction, strategy, last_sync, seen, local, cloud, at),
    ensures
        direction == SyncDirection::Download ==> d !is Upload,
        direction == SyncDirection::Upload ==> d !is Download && d !is DownloadCopy,
{
}

/// Where neither side changed since the last transfer and the last sync, nothing is done.
pub proof fn law_nothing_newer_means_nothing_done(
    d: Decision,
    direction: SyncDirection,
    strategy: ConflictStrategy,
    last_sync: Option<i64>,
    seen: i64,
    local: LocalFile,
    cloud: CloudFile,
    at: Timestamp,
)
    requires
        is_decision(d, direction, strategy, last_sync, seen, local, cloud, at),
        local.modified_at <= seen,
        cloud.modified_at <= seen,
        last_sync matches Some(t) && local.modified_at <= t,
    ensures
        d == Decision::Nothing,
{
}

/// A pattern without `*` and `?` matches exactly itself.
pub proof fn law_plain_patterns_match_themselves(pattern: Seq<char>, name: Seq<char>)
    requires
        !pattern.contains('*'),
        !pattern.contains('?'),
    ensures
        glob(pattern, name) == (pattern == name),
    decreases pattern.len(),
{
    if pattern.len() > 0 {
        assert(pattern.contains(pattern[0]));
        let rest = pattern.skip(1);
        assert forall|c: char| rest.contains(c) implies pattern.contains(c) by {
            let i = choose|i: int| 0 <= i < rest.len() && rest[i] == c;
            assert(pattern[i + 1] == c);
        }
        if name.len() > 0 {
            law_plain_patterns_match_themselves(rest, name.skip(1));
            if pattern[0] == name[0] && rest == name.skip(1) {
                assert forall|i: int| 0 <= i < pattern.len() implies pattern[i] == name[i] by {
                    if i > 0 {
                        assert(rest[i - 1] == name.skip(1)[i - 1]);
                    }
                }
                assert(pattern =~= name);
            }
        }
    } else {
        if name.len() == 0 {
            assert(pattern =~= name);
        }
    }
}

/// The pattern `*` matches every name.
pub proof fn law_star_matches_anything(name: Seq<char>)
    ensures
        glob(seq!['*'], name),
{
    let p = seq!['*'];
    assert(p.skip(1) =~= Seq::empty());
    let n = name.len() as int;
    assert(name.skip(n) =~= Seq::empty());
    assert(glob(p.skip(1), name.skip(n)));
}

/// A file that both sides changed since the last sync goes where the strategy says: up where the
/// local version wins, down where the cloud's does, and nowhere where the direction of the sync
/// does not allow it. By modification time the later version wins; the cloud's is stored beside
/// the local one where neither is later or both are to be kept; and where the user is asked,
/// nothing moves.
pub proof fn law_changes_on_both_sides_follow_the_strategy(
    d: Decision,
    direction: SyncDirection,
    strategy: ConflictStrategy,
    last_sync: Option<i64>,
    seen: i64,
    local: LocalFile,
    cloud: CloudFile,
    at: Timestamp,
)
    requires
        is_decision(d, direction, strategy, last_sync, seen, local, cloud, at),
        last_sync matches Some(t) ==> local.modified_at > t && cloud.modified_at > t,
        last_sync is None ==> local.modified_at > 0 && cloud.modified_at > 0,
    ensures
        strategy == ConflictStrategy::LocalWins || (strategy == ConflictStrategy::NewerWins
            && local.modified_at > cloud.modified_at) ==> {
            &&& direction != SyncDirection::Download ==> d is Upload
            &&& direction == SyncDirection::Download ==> d is Nothing
        },
        strategy == ConflictStrategy::CloudWins || (strategy == ConflictStrategy::NewerWins
            && local.modified_at < cloud.modified_at) ==> {
            &&& direction != SyncDirection::Upload ==> d is Download
            &&& direction == SyncDirection::Upload ==> d is Nothing
        },
        strategy == ConflictStrategy::KeepBoth || (strategy == ConflictStrategy::NewerWins
            && local.modified_at == cloud.modified_at) ==> {
            &&& direction != SyncDirection::Upload ==> d is DownloadCopy
            &&& direction == SyncDirection::Upload ==> d is Nothing
        },
        strategy == ConflictStrategy::AskUser ==> d is Ask,
{
}

/// A file that not both sides changed since the last sync, and that is newer on one side than its
/// last transfer, is carried over from there; a local change before one in the cloud.
pub proof fn law_a_change_on_one_side_is_carried_over(
    d: Decision,
    direction: SyncDirection,
    strategy: ConflictStrategy,
    last_sync: Option<i64>,
    seen: i64,
    local: LocalFile,
    cloud: CloudFile,
    at: Timestamp,
)
    requires
        is_decision(d, direction, strategy, last_sync, seen, local, cloud, at),
        last_sync matches Some(t) ==> local.modified_at <= t || cloud.modified_at <= t,
        last_sync is None ==> local.modified_at <= 0 || cloud.modified_at <= 0,
    ensures
        d is Upload <==> local.modified_at > seen && direction != SyncDirection::Download,
        d is Download <==> cloud.modified_at > seen && direction != SyncDirection::Upload && (
        local.modified_at <= seen || direction == SyncDirection::Download),
        d is Upload || d is Download || d is Nothing,
{
}

/// A copy that is stored beside the local file is the cloud's file under a name that tells when
/// the conflict was met, in the directory of the original.
pub proof fn law_a_conflict_copy_lies_beside_the_original(
    d: Decision,
    direction: SyncDirection,
    strategy: ConflictStrategy,
    last_sync: Option<i64>,
    seen: i64,
    local: LocalFile,
    cloud: CloudFile,
    at: Timestamp,
    dir: Seq<char>,
    stem: Seq<char>,
    ext: Seq<char>,
)
    requires
        is_decision(d, direction, strategy, last_sync, seen, local, cloud, at),
        d is DownloadCopy,
        cloud.name@ == stem + seq!['.'] + ext,
        !ext.contains('.'),
        !cloud.name@.contains('/'),
        cloud.path@ == dir + seq!['/'] + cloud.name@,
    ensures
        d matches Decision::DownloadCopy(f) && {
            &&& f.name@ == stem + "_conflict_"@ + crate::clock::compact(at.seconds, at.nanos)
                + seq!['.'] + ext
            &&& f.path@ == dir + seq!['/'] + f.name@
            &&& f.id@ == cloud.id@
            &&& f.size == cloud.size
            &&& f.modified_at == cloud.modified_at
            &&& f.is_folder == cloud.is_folder
            &&& f.deleted == cloud.deleted
            &&& crate::text::text_of(f.content_hash) == crate::text::text_of(cloud.content_hash)
            &&& crate::text::text_of(f.mime_type) == crate::text::text_of(cloud.mime_type)
            &&& crate::text::text_of(f.parent_id) == crate::text::text_of(cloud.parent_id)
        },
{
    crate::integrations::conflict::law_conflict_name_keeps_extension(stem, ext, at);
    crate::text::law_last_index(cloud.path@, '/');
    reveal_strlit("/");
    assert("/"@ =~= seq!['/']);
    let i = crate::text::last_index(cloud.path@, '/');
    assert(cloud.path@[dir.len() as int] == '/');
    assert forall|j: int| dir.len() < j < cloud.path@.len() implies cloud.path@[j] != '/' by {
        assert(cloud.path@[j] == cloud.name@[j - dir.len() - 1]);
    }
    assert(i is Some);
    assert(i->0 == dir.len()) by {
        if i->0 < dir.len() {
            assert(cloud.path@[dir.len() as int] != '/');
        }
    }
    assert(cloud.path@.take(dir.len() as int) =~= dir);
}

/// A conflict that the user is asked about holds both versions as they were found, and waits
/// unresolved with those that waited before.
pub proof fn law_an_open_conflict_waits(
    d: Decision,
    direction: SyncDirection,
    strategy: ConflictStrategy,
    last_sync: Option<i64>,
    seen: i64,
    local: LocalFile,
    cloud: CloudFile,
    at: Timestamp,
    was: Seq<Conflict>,
)
    requires
        is_decision(d, direction, strategy, last_sync, seen, local, cloud, at),
    ensures
        d matches Decision::Ask(c) ==> {
            &&& strategy == ConflictStrategy::AskUser
            &&& c.local_path@ == local.full_path@
            &&& c.local_modified_at == local.modified_at
            &&& c.local_size == local.size
            &&& c.cloud_file == cloud
            &&& c.conflict_type == ConflictType::BothModified
            &&& waiting(was, d).len() == was.len() + 1
            &&& waiting(was, d).last() == (Conflict { resolution: None, ..c })
            &&& waiting(was, d).drop_last() == was
        },
        d !is Ask ==> waiting(was, d) == was,
{
    if d is Ask {
        assert(waiting(was, d).drop_last() =~= was);
    }
}

/// A transfer is remembered under its path: the id and the time of what was transferred, and its
/// hash where it has one. Other paths keep what was remembered of them, and the position in the
/// cloud's list of changes stays.
pub proof fn law_a_transfer_is_remembered(
    before: SyncState,
    after: SyncState,
    path: Seq<char>,
    file: CloudFile,
    modified_at: i64,
    other: Seq<char>,
)
    requires
        transferred(before, after, path, file, modified_at),
    ensures
        after.seen(path) == modified_at,
        after.file_map@.contains_key(path) && after.file_map@[path] == file.id,
        file.content_hash matches Some(h) ==> after.hash_map@.contains_key(path)
            && after.hash_map@[path] == h,
        file.content_hash is None ==> after.hash_map@ == before.hash_map@,
        after.last_sync == before.last_sync,
        after.cursor == before.cursor,
        other != path ==> {
            &&& after.seen(other) == before.seen(other)
            &&& after.file_map@.contains_key(other) == before.file_map@.contains_key(other)
            &&& before.file_map@.contains_key(other) ==> after.file_map@[other]
                == before.file_map@[other]
            &&& after.hash_map@.contains_key(other) == before.hash_map@.contains_key(other)
            &&& before.hash_map@.contains_key(other) ==> after.hash_map@[other]
                == before.hash_map@[other]
        },
{
}

/// A file that was never transferred counts as older than every file; one that was is as old as
/// its last transfer says.
pub proof fn law_a_file_is_seen_at_its_last_transfer(state: SyncState, path: Seq<char>)
    ensures
        !state.mtime_map@.contains_key(path) ==> state.seen(path) == 0,
        state.mtime_map@.contains_key(path) ==> state.seen(path) == state.mtime_map@[path],
{
}

/// A file that was just uploaded, and that neither side has changed since, is left alone.
pub proof fn law_a_transferred_file_is_left_alone(
    before: SyncState,
    after: SyncState,
    path: Seq<char>,
    file: CloudFile,
    local: LocalFile,
    d: Decision,
    direction: SyncDirection,
    strategy: ConflictStrategy,
    last_sync: i64,
    at: Timestamp,
)
    requires
        transferred(before, after, path, file, local.modified_at),
        file.modified_at <= local.modified_at <= last_sync,
        is_decision(d, direction, strategy, Some(last_sync), after.seen(path), local, file, at),
    ensures
        d is Nothing,
{
}

/// A failure adds one text to the errors and changes no count; a run is to be repeated once
/// anything failed that is not bound to fail again.
pub proof fn law_a_failure_is_told(
    before: SyncRun,
    after: SyncRun,
    text: Seq<char>,
    error: crate::integrations::IntegrationErrorView,
)
    requires
        failed(before, after, text, error),
    ensures
        after.result.errors@.len() == before.result.errors@.len() + 1,
        after.result.errors@.last()@ == text,
        forall|i: int|
            0 <= i < before.result.errors@.len() ==> (#[trigger] after.result.errors@[i])@
                == before.result.errors@[i]@,
        after.result.uploaded == before.result.uploaded,
        after.result.downloaded == before.result.downloaded,
        after.result.deleted == before.result.deleted,
        after.result.status == before.result.status,
        after.result.conflicts == before.result.conflicts,
        error is InvalidPath ==> after.transient == before.transient,
        before.transient ==> after.transient,
        error is Network || error is RateLimited ==> after.transient,
{
    let was = crate::text::texts(before.result.errors@);
    let now = crate::text::texts(after.result.errors@);
    assert(now.len() == after.result.errors@.len());
    assert(now.last() == after.result.errors@.last()@);
    assert forall|i: int| 0 <= i < before.result.errors@.len() implies (
    #[trigger] after.result.errors@[i])@ == before.result.errors@[i]@ by {
        assert(now[i] == after.result.errors@[i]@);
        assert(was[i] == before.result.errors@[i]@);
    }
}

/// A download that went well is counted and remembered under the path of the file, with the
/// cloud's modification time; one that failed leaves what was remembered.
pub proof fn law_downloads_are_counted(
    before: SyncState,
    after: SyncState,
    run_before: SyncRun,
    run_after: SyncRun,
    file: CloudFile,
    outcome: Result<(), IntegrationError>,
    what: Seq<char>,
)
    requires
        run_before.result.downloaded < usize::MAX,
        downloaded(before, after, run_before, run_after, file, outcome, what),
    ensures
        outcome is Ok ==> {
            &&& run_after.result.downloaded == run_before.result.downloaded + 1
            &&& run_after.result.errors == run_before.result.errors
            &&& run_after.transient == run_before.transient
            &&& after.seen(file.path@) == file.modified_at
            &&& after.file_map@.contains_key(file.path@) && after.file_map@[file.path@] == file.id
        },
        outcome is Err ==> {
            &&& run_after.result.downloaded == run_before.result.downloaded
            &&& run_after.result.errors@.len() == run_before.result.errors@.len() + 1
            &&& what.is_prefix_of(run_after.result.errors@.last()@)
            &&& after == before
        },
{
    if let Err(e) = outcome {
        let text = what + crate::integrations::error_text(e@);
        law_a_failure_is_told(run_before, run_after, text, e@);
        assert(what =~= text.take(what.len() as int));
    }
}

/// Of the cloud's files each is found under its path, unless a later one has the same path; and
/// nothing else is found.
pub proof fn law_the_last_file_of_a_path_counts(files: Seq<CloudFile>)
    ensures
        forall|i: int|
            0 <= i < files.len() ==> by_path(files).contains_key(#[trigger] files[i].path@),
        forall|i: int|
            0 <= i < files.len() && (forall|j: int|
                i < j < files.len() ==> (#[trigger] files[j]).path@ != files[i].path@) ==> by_path(
                files,
            )[(#[trigger] files[i]).path@] == files[i],
        forall|k: Seq<char>| #[trigger]
            by_path(files).contains_key(k) ==> exists|i: int|
                0 <= i < files.len() && (#[trigger] files[i]).path@ == k,
    decreases files.len(),
{
    if files.len() > 0 {
        let rest = files.drop_last();
        law_the_last_file_of_a_path_counts(rest);
        assert forall|i: int| 0 <= i < files.len() implies by_path(files).contains_key(
            #[trigger] files[i].path@,
        ) by {
            if i < rest.len() {
                assert(rest[i] == files[i]);
                assert(by_path(rest).contains_key(rest[i].path@));
            }
        }
        assert forall|i: int|
            0 <= i < files.len() && (forall|j: int|
                i < j < files.len() ==> (#[trigger] files[j]).path@
                    != files[i].path@) implies by_path(files)[(#[trigger] files[i]).path@]
            == files[i] by {
            if i < rest.len() {
                assert(rest[i] == files[i]);
                assert(files[files.len() - 1].path@ != files[i].path@);
                assert forall|j: int| i < j < rest.len() implies (#[trigger] rest[j]).path@
                    != rest[i].path@ by {
                    assert(rest[j] == files[j]);
                }
                assert(by_path(rest)[rest[i].path@] == rest[i]);
            }
        }
        assert forall|k: Seq<char>| #[trigger] by_path(files).contains_key(k) implies exists|i: int|
            0 <= i < files.len() && (#[trigger] files[i]).path@ == k by {
            if k == files.last().path@ {
                assert(files[files.len() - 1].path@ == k);
            } else {
                assert(by_path(rest).contains_key(k));
                let i = choose|i: int| 0 <= i < rest.len() && (#[trigger] rest[i]).path@ == k;
                assert(files[i].path@ == k);
            }
        }
    }
}

/// Each task is listed once: what is picked from distinct paths is distinct.
pub proof fn law_no_path_is_picked_twice(ks: Seq<Seq<char>>, f: spec_fn(Seq<char>) -> bool)
    requires
        ks.no_duplicates(),
    ensures
        those(ks, f).no_duplicates(),
        those(ks, f).len() <= ks.len(),
    decreases ks.len(),
{
    if ks.len() > 0 {
        let rest = ks.drop_last();
        law_no_path_is_picked_twice(rest, f);
        lemma_those(rest, f, ks.last());
        let before = those(rest, f);
        assert(!rest.contains(ks.last()));
        if f(ks.last()) {
            let all = before.push(ks.last());
            assert forall|i: int, j: int|
                0 <= i < all.len() && 0 <= j < all.len() && i != j implies all[i] != all[j] by {
                if i < before.len() && j < before.len() {
                    assert(before[i] != before[j]);
                } else if i < before.len() {
                    assert(before.contains(before[i]));
                } else {
                    assert(before.contains(before[j]));
                }
            }
        }
    }
}

/// Two patterns one after the other match a name exactly where it falls into two parts that they
/// match.
pub proof fn law_patterns_match_one_after_the_other(
    first: Seq<char>,
    second: Seq<char>,
    name: Seq<char>,
)
    ensures
        glob(first + second, name) <==> exists|k: int|
            0 <= k <= name.len() && glob(first, #[trigger] name.take(k)) && glob(
                second,
                name.skip(k),
            ),
    decreases first.len(),
{
    if first.len() == 0 {
        assert(first + second =~= second);
        assert(name.take(0) =~= Seq::empty());
        assert(name.skip(0) =~= name);
        if exists|k: int|
            0 <= k <= name.len() && glob(first, #[trigger] name.take(k)) && glob(
                second,
                name.skip(k),
            ) {
            let k = choose|k: int|
                0 <= k <= name.len() && glob(first, #[trigger] name.take(k)) && glob(
                    second,
                    name.skip(k),
                );
            assert(k == 0);
        }
        if glob(first + second, name) {
            assert(glob(first, name.take(0)));
        }
    } else {
        let rest = first.skip(1);
        let both = first + second;
        assert(both[0] == first[0]);
        assert(both.skip(1) =~= rest + second);
        if first[0] == '*' {
            if glob(both, name) {
                let m = choose|m: int|
                    0 <= m <= name.len() && glob(both.skip(1), #[trigger] name.skip(m));
                let tail = name.skip(m);
                law_patterns_match_one_after_the_other(rest, second, tail);
                let k = choose|k: int|
                    0 <= k <= tail.len() && glob(rest, #[trigger] tail.take(k)) && glob(
                        second,
                        tail.skip(k),
                    );
                assert(name.take(m + k).skip(m) =~= tail.take(k));
                assert(name.skip(m + k) =~= tail.skip(k));
                assert(glob(first, name.take(m + k)));
            }
            if exists|k: int|
                0 <= k <= name.len() && glob(first, #[trigger] name.take(k)) && glob(
                    second,
                    name.skip(k),
                ) {
                let k = choose|k: int|
                    0 <= k <= name.len() && glob(first, #[trigger] name.take(k)) && glob(
                        second,
                        name.skip(k),
                    );
                let head = name.take(k);
                let m = choose|m: int|
                    0 <= m <= head.len() && glob(rest, #[trigger] head.skip(m));
                let tail = name.skip(m);
                assert(tail.take(k - m) =~= head.skip(m));
                assert(tail.skip(k - m) =~= name.skip(k));
                law_patterns_match_one_after_the_other(rest, second, tail);
                assert(glob(both.skip(1), name.skip(m)));
            }
        } else if name.len() > 0 {
            let tail = name.skip(1);
            law_patterns_match_one_after_the_other(rest, second, tail);
            if glob(both, name) {
                let k = choose|k: int|
                    0 <= k <= tail.len() && glob(rest, #[trigger] tail.take(k)) && glob(
                        second,
                        tail.skip(k),
                    );
                assert(name.take(k + 1).skip(1) =~= tail.take(k));
                assert(name.skip(k + 1) =~= tail.skip(k));
                assert(glob(first, name.take(k + 1)));
            }
            if exists|k: int|
                0 <= k <= name.len() && glob(first, #[trigger] name.take(k)) && glob(
                    second,
                    name.skip(k),
                ) {
                let k = choose|k: int|
                    0 <= k <= name.len() && glob(first, #[trigger] name.take(k)) && glob(
                        second,
                        name.skip(k),
                    );
                let head = name.take(k);
                assert(head.len() > 0);
                assert(head.skip(1) =~= tail.take(k - 1));
                assert(tail.skip(k - 1) =~= name.skip(k));
                assert(glob(both, name));
            }
        } else {
            assert(!glob(both, name));
            assert forall|k: int| 0 <= k <= name.len() implies !glob(
                first,
                #[trigger] name.take(k),
            ) by {
                assert(name.take(k).len() == 0);
            }
        }
    }
}

/// The pattern `?` matches exactly the names of one character.
pub proof fn law_question_mark_matches_one_character(name: Seq<char>)
    ensures
        glob(seq!['?'], name) <==> name.len() == 1,
{
    let p = seq!['?'];
    assert(p.skip(1) =~= Seq::empty());
    if name.len() > 0 {
        assert(glob(p.skip(1), name.skip(1)) == (name.skip(1).len() == 0));
    }
}

/// A pattern of `*` and a plain ending matches exactly the names with that ending.
pub proof fn law_star_and_ending(ending: Seq<char>, name: Seq<char>)
    requires
        !ending.contains('*'),
        !ending.contains('?'),
    ensures
        glob(seq!['*'] + ending, name) <==> ending.is_suffix_of(name),
{
    law_patterns_match_one_after_the_other(seq!['*'], ending, name);
    let n = name.len() - ending.len();
    if glob(seq!['*'] + ending, name) {
        let k = choose|k: int|
            0 <= k <= name.len() && glob(seq!['*'], #[trigger] name.take(k)) && glob(
                ending,
                name.skip(k),
            );
        law_plain_patterns_match_themselves(ending, name.skip(k));
        assert(ending =~= name.subrange(n, name.len() as int));
    }
    if ending.is_suffix_of(name) {
        law_star_matches_anything(name.take(n));
        assert(name.skip(n) =~= ending);
        law_plain_patterns_match_themselves(ending, name.skip(n));
        assert(glob(seq!['*'], name.take(n)) && glob(ending, name.skip(n)));
    }
}

/// A scan leaves out hidden entries unless they are wanted, whatever a pattern matches, folders
/// that are not among those to sync, and files over the largest size; it takes everything else.
pub proof fn law_a_scan_takes_what_nothing_leaves_out(
    c: SyncConfig,
    name: Seq<char>,
    path: Seq<char>,
    is_dir: bool,
    size: u64,
)
    ensures
        scan_decision(c, name, path, is_dir, size) is Take <==> {
            &&& !is_dir
            &&& c.sync_hidden || name.len() == 0 || name[0] != '.'
            &&& forall|i: int|
                0 <= i < c.exclude_patterns@.len() ==> !glob(
                    (#[trigger] c.exclude_patterns@[i])@,
                    name,
                )
            &&& c.max_file_size matches Some(max) ==> size <= max
        },
        scan_decision(c, name, path, is_dir, size) is Enter <==> {
            &&& is_dir
            &&& c.sync_hidden || name.len() == 0 || name[0] != '.'
            &&& forall|i: int|
                0 <= i < c.exclude_patterns@.len() ==> !glob(
                    (#[trigger] c.exclude_patterns@[i])@,
                    name,
                )
            &&& c.folder_configs@.len() == 0 || exists|i: int|
                0 <= i < c.folder_configs@.len() && {
                    let local = (#[trigger] c.folder_configs@[i]).local_path@;
                    crate::integrations::paths::lies_under(path, local)
                        || crate::integrations::paths::lies_under(local, path)
                }
        },
{
    let all = crate::text::texts(c.exclude_patterns@);
    assert forall|i: int| 0 <= i < all.len() implies #[trigger] all[i]
        == c.exclude_patterns@[i]@ by {}
    if excluded(all, name) {
        let i = choose|i: int| 0 <= i < all.len() && glob(#[trigger] all[i], name);
        assert(glob(c.exclude_patterns@[i]@, name));
    } else {
        assert forall|i: int| 0 <= i < c.exclude_patterns@.len() implies !glob(
            (#[trigger] c.exclude_patterns@[i])@,
            name,
        ) by {
            assert(!glob(all[i], name));
        }
    }
}

} // verus!

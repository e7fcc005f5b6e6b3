//! Bidirectional sync with cloud storage: Google Drive, Dropbox and OneDrive.

use vstd::prelude::*;
use vstd::string::*;

use crate::integrations::conflict::{ConflictResolver, ConflictStrategy};
use crate::integrations::oauth::OAuthToken;
use crate::integrations::sync::SyncDirection;
use crate::text::decimal_u64;

pub mod api;
pub mod conflict;
pub mod dropbox;
pub mod google_drive;
pub mod http;
pub mod machine;
pub mod oauth;
pub mod onedrive;
pub mod paths;
pub mod sync;
pub mod walk;

verus! {

/// Errors from cloud integrations.
#[derive(Debug, Clone)]
pub enum IntegrationError {
    OAuth(String),
    TokenExpired,
    TokenRefreshFailed(String),
    Api(String),
    RateLimited { retry_after_secs: u64 },
    QuotaExceeded,
    NotFound(String),
    /// The provider will not hand out the file's content (an editor document, a file its owner
    /// locked).
    NotDownloadable(String),
    /// The provider no longer knows the cursor: everything has to be listed again.
    ResyncRequired(String),
    Conflict(String),
    Network(String),
    Serialization(String),
    Io(String),
    NotConfigured,
    InvalidPath(String),
}

/// [`IntegrationError`] with its texts as characters.
pub enum IntegrationErrorView {
    OAuth(Seq<char>),
    TokenExpired,
    TokenRefreshFailed(Seq<char>),
    Api(Seq<char>),
    RateLimited(u64),
    QuotaExceeded,
    NotFound(Seq<char>),
    NotDownloadable(Seq<char>),
    ResyncRequired(Seq<char>),
    Conflict(Seq<char>),
    Network(Seq<char>),
    Serialization(Seq<char>),
    Io(Seq<char>),
    NotConfigured,
    InvalidPath(Seq<char>),
}

impl View for IntegrationError {
    type V = IntegrationErrorView;

    open spec fn view(&self) -> IntegrationErrorView {
        match self {
            IntegrationError::OAuth(s) => IntegrationErrorView::OAuth(s@),
            IntegrationError::TokenExpired => IntegrationErrorView::TokenExpired,
            IntegrationError::TokenRefreshFailed(s) => IntegrationErrorView::TokenRefreshFailed(s@),
            IntegrationError::Api(s) => IntegrationErrorView::Api(s@),
            IntegrationError::RateLimited { retry_after_secs } => IntegrationErrorView::RateLimited(
                *retry_after_secs,
            ),
            IntegrationError::QuotaExceeded => IntegrationErrorView::QuotaExceeded,
            IntegrationError::NotFound(s) => IntegrationErrorView::NotFound(s@),
            IntegrationError::NotDownloadable(s) => IntegrationErrorView::NotDownloadable(s@),
            IntegrationError::ResyncRequired(s) => IntegrationErrorView::ResyncRequired(s@),
            IntegrationError::Conflict(s) => IntegrationErrorView::Conflict(s@),
            IntegrationError::Network(s) => IntegrationErrorView::Network(s@),
            IntegrationError::Serialization(s) => IntegrationErrorView::Serialization(s@),
            IntegrationError::Io(s) => IntegrationErrorView::Io(s@),
            IntegrationError::NotConfigured => IntegrationErrorView::NotConfigured,
            IntegrationError::InvalidPath(s) => IntegrationErrorView::InvalidPath(s@),
        }
    }
}

/// An error in words.
pub open spec fn error_text(e: IntegrationErrorView) -> Seq<char> {
    match e {
        IntegrationErrorView::OAuth(s) => "OAuth error: "@ + s,
        IntegrationErrorView::TokenExpired => "Token expired"@,
        IntegrationErrorView::TokenRefreshFailed(s) => "Token refresh failed: "@ + s,
        IntegrationErrorView::Api(s) => "API error: "@ + s,
        IntegrationErrorView::RateLimited(secs) => "Rate limited, retry after "@
            + crate::text::decimal(secs as nat) + "s"@,
        IntegrationErrorView::QuotaExceeded => "Quota exceeded"@,
        IntegrationErrorView::NotFound(s) => "File not found: "@ + s,
        IntegrationErrorView::NotDownloadable(s) => "File not downloadable: "@ + s,
        IntegrationErrorView::ResyncRequired(s) => "Resync required: "@ + s,
        IntegrationErrorView::Conflict(s) => "Conflict: "@ + s,
        IntegrationErrorView::Network(s) => "Network error: "@ + s,
        IntegrationErrorView::Serialization(s) => "Serialization error: "@ + s,
        IntegrationErrorView::Io(s) => "IO error: "@ + s,
        IntegrationErrorView::NotConfigured => "Provider not configured"@,
        IntegrationErrorView::InvalidPath(s) => "Unsafe path rejected: "@ + s,
    }
}

/// Whether trying again cannot help: the file is gone, is never handed out, or has a path that is
/// never accepted.
pub open spec fn permanent(e: IntegrationErrorView) -> bool {
    e is NotFound || e is NotDownloadable || e is InvalidPath
}

fn prefixed(prefix: &str, s: &str) -> (r: String)
    ensures
        r@ == prefix@ + s@,
{
    let mut out = prefix.to_owned();
    out.push_str(s);
    out
}

impl IntegrationError {
    /// The error in words.
    pub fn message(&self) -> (r: String)
        ensures
            r@ == error_text(self@),
    {
        match self {
            IntegrationError::OAuth(s) => prefixed("OAuth error: ", s.as_str()),
            IntegrationError::TokenExpired => "Token expired".to_owned(),
            IntegrationError::TokenRefreshFailed(s) => prefixed(
                "Token refresh failed: ",
                s.as_str(),
            ),
            IntegrationError::Api(s) => prefixed("API error: ", s.as_str()),
            IntegrationError::RateLimited { retry_after_secs } => {
                let mut out = prefixed(
                    "Rate limited, retry after ",
                    decimal_u64(*retry_after_secs).as_str(),
                );
                out.push_str("s");
                out
            },
            IntegrationError::QuotaExceeded => "Quota exceeded".to_owned(),
            IntegrationError::NotFound(s) => prefixed("File not found: ", s.as_str()),
            IntegrationError::NotDownloadable(s) => prefixed("File not downloadable: ", s.as_str()),
            IntegrationError::ResyncRequired(s) => prefixed("Resync required: ", s.as_str()),
            IntegrationError::Conflict(s) => prefixed("Conflict: ", s.as_str()),
            IntegrationError::Network(s) => prefixed("Network error: ", s.as_str()),
            IntegrationError::Serialization(s) => prefixed("Serialization error: ", s.as_str()),
            IntegrationError::Io(s) => prefixed("IO error: ", s.as_str()),
            IntegrationError::NotConfigured => "Provider not configured".to_owned(),
            IntegrationError::InvalidPath(s) => prefixed("Unsafe path rejected: ", s.as_str()),
        }
    }

    /// Whether trying again cannot help.
    pub fn is_permanent(&self) -> (r: bool)
        ensures
            r == permanent(self@),
    {
        match self {
            IntegrationError::NotFound(_) => true,
            IntegrationError::NotDownloadable(_) => true,
            IntegrationError::InvalidPath(_) => true,
            _ => false,
        }
    }
}

/// Cloud file metadata.
#[derive(Debug)]
pub struct CloudFile {
    /// Provider-specific file ID.
    pub id: String,
    pub name: String,
    pub mime_type: Option<String>,
    /// Size in bytes.
    pub size: u64,
    /// Last modification time (Unix timestamp).
    pub modified_at: i64,
    /// Content hash (provider-specific).
    pub content_hash: Option<String>,
    /// Parent folder ID.
    pub parent_id: Option<String>,
    pub is_folder: bool,
    /// Full path in cloud storage.
    pub path: String,
    /// Whether the provider reports the file as deleted.
    pub deleted: bool,
}

/// [`CloudFile`] with its texts as characters.
pub struct CloudFileView {
    pub id: Seq<char>,
    pub name: Seq<char>,
    pub mime_type: Option<Seq<char>>,
    pub size: u64,
    pub modified_at: i64,
    pub content_hash: Option<Seq<char>>,
    pub parent_id: Option<Seq<char>>,
    pub is_folder: bool,
    pub path: Seq<char>,
    pub deleted: bool,
}

impl View for CloudFile {
    type V = CloudFileView;

    open spec fn view(&self) -> CloudFileView {
        CloudFileView {
            id: self.id@,
            name: self.name@,
            mime_type: crate::text::text_of(self.mime_type),
            size: self.size,
            modified_at: self.modified_at,
            content_hash: crate::text::text_of(self.content_hash),
            parent_id: crate::text::text_of(self.parent_id),
            is_folder: self.is_folder,
            path: self.path@,
            deleted: self.deleted,
        }
    }
}

/// Files with their texts as characters.
pub open spec fn file_views(v: Seq<CloudFile>) -> Seq<CloudFileView> {
    v.map_values(|f: CloudFile| f@)
}

impl Clone for CloudFile {
    fn clone(&self) -> (r: Self)
        ensures
            r == *self,
    {
        CloudFile {
            id: self.id.clone(),
            name: self.name.clone(),
            mime_type: self.mime_type.clone(),
            size: self.size,
            modified_at: self.modified_at,
            content_hash: self.content_hash.clone(),
            parent_id: self.parent_id.clone(),
            is_folder: self.is_folder,
            path: self.path.clone(),
            deleted: self.deleted,
        }
    }
}

/// Cloud folder for selective sync.
#[derive(Debug)]
pub struct CloudFolder {
    pub id: String,
    pub name: String,
    pub path: String,
    pub parent_id: Option<String>,
}

/// [`CloudFolder`] with its texts as characters.
pub struct CloudFolderView {
    pub id: Seq<char>,
    pub name: Seq<char>,
    pub path: Seq<char>,
    pub parent_id: Option<Seq<char>>,
}

impl View for CloudFolder {
    type V = CloudFolderView;

    open spec fn view(&self) -> CloudFolderView {
        CloudFolderView {
            id: self.id@,
            name: self.name@,
            path: self.path@,
            parent_id: crate::text::text_of(self.parent_id),
        }
    }
}

impl Clone for CloudFolder {
    fn clone(&self) -> (r: Self)
        ensures
            r == *self,
    {
        CloudFolder {
            id: self.id.clone(),
            name: self.name.clone(),
            path: self.path.clone(),
            parent_id: self.parent_id.clone(),
        }
    }
}

/// Sync folder configuration.
#[derive(Debug, Clone)]
pub struct SyncFolderConfig {
    /// Cloud folder ID or path.
    pub cloud_path: String,
    /// Local relative path.
    pub local_path: String,
    pub direction: SyncDirection,
    /// Include subfolders.
    pub recursive: bool,
    /// File patterns to take in (glob).
    pub include_patterns: Vec<String>,
    /// File patterns to leave out (glob).
    pub exclude_patterns: Vec<String>,
}

/// The supported providers.
#[derive(Debug, Clone, Copy, PartialEq, Eq, Hash, Structural)]
pub enum ProviderType {
    GoogleDrive,
    Dropbox,
    OneDrive,
}

/// A provider's name.
pub open spec fn provider_name(p: ProviderType) -> Seq<char> {
    match p {
        ProviderType::GoogleDrive => "google_drive"@,
        ProviderType::Dropbox => "dropbox"@,
        ProviderType::OneDrive => "onedrive"@,
    }
}

impl ProviderType {
    /// The provider's name.
    pub fn name(&self) -> (r: &'static str)
        ensures
            r@ == provider_name(*self),
    {
        match self {
            ProviderType::GoogleDrive => "google_drive",
            ProviderType::Dropbox => "dropbox",
            ProviderType::OneDrive => "onedrive",
        }
    }
}

/// What a cloud storage provider keeps: which one it is, and the token it is called with.
pub trait CloudProvider {
    spec fn kind(&self) -> ProviderType;

    spec fn token(&self) -> Option<OAuthToken>;

    /// Get provider type.
    fn provider_type(&self) -> (r: ProviderType)
        ensures
            r == self.kind(),
    ;

    /// Check if authenticated.
    fn is_authenticated(&self) -> (r: bool)
        ensures
            r == self.token() is Some,
    ;

    /// Get current token (if any).
    fn get_token(&self) -> (r: Option<&OAuthToken>)
        ensures
            match r {
                Some(t) => self.token() == Some(*t),
                None => self.token() is None,
            },
    ;

    /// Set token (after OAuth flow or refresh).
    fn set_token(&mut self, token: OAuthToken)
        ensures
            final(self).kind() == old(self).kind(),
            final(self).token() == Some(token),
    ;
}

/// Whether `r` is the refresh token of a provider that has `token`, or why there is none.
pub open spec fn is_refresh_grant(
    r: Result<&str, IntegrationError>,
    token: Option<OAuthToken>,
) -> bool {
    match token {
        None => r == Err::<&str, IntegrationError>(IntegrationError::NotConfigured),
        Some(t) => match t.refresh_token {
            None => r matches Err(e) && e@ == IntegrationErrorView::TokenRefreshFailed(
                "No refresh token"@,
            ),
            Some(s) => r matches Ok(x) && x@ == s@,
        },
    }
}

/// The refresh token to ask for a new token with: a provider without a token is not configured,
/// and a token may have come without one.
pub fn refresh_grant(token: &Option<OAuthToken>) -> (r: Result<&str, IntegrationError>)
    ensures
        is_refresh_grant(r, *token),
{
    match token {
        None => Err(IntegrationError::NotConfigured),
        Some(t) => match &t.refresh_token {
            None => Err(IntegrationError::TokenRefreshFailed("No refresh token".to_owned())),
            Some(s) => Ok(s.as_str()),
        },
    }
}

/// Storage quota information.
#[derive(Debug, Clone, Copy, PartialEq, Eq)]
pub struct StorageQuota {
    /// Used space in bytes.
    pub used: u64,
    /// Total space in bytes (`None` if unlimited).
    pub total: Option<u64>,
    /// Trash size in bytes.
    pub trash: Option<u64>,
}

/// Several providers, at most one of a kind, and how they sync.
pub struct IntegrationManager<P: CloudProvider> {
    pub providers: Vec<P>,
    pub sync_configs: Vec<SyncFolderConfig>,
    pub conflict_resolver: ConflictResolver,
}

/// The provider of each kind among `ps`: the first of it.
pub open spec fn provider_of<P: CloudProvider>(ps: Seq<P>, kind: ProviderType) -> Option<P>
    decreases ps.len(),
{
    if ps.len() == 0 {
        None
    } else if ps[0].kind() == kind {
        Some(ps[0])
    } else {
        provider_of(ps.drop_first(), kind)
    }
}

impl<P: CloudProvider> IntegrationManager<P> {
    /// No two providers are of one kind.
    pub open spec fn wf(&self) -> bool {
        forall|i: int, j: int|
            0 <= i < j < self.providers@.len() ==> (#[trigger] self.providers@[i]).kind() != (
            #[trigger] self.providers@[j]).kind()
    }

    /// A manager without providers, under which the newer version of a file wins.
    pub fn new() -> (r: Self)
        ensures
            r.wf(),
            r.providers@.len() == 0,
            r.sync_configs@.len() == 0,
            r.conflict_resolver.strategy() == ConflictStrategy::NewerWins,
            r.conflict_resolver.pending().len() == 0,
    {
        IntegrationManager {
            providers: Vec::new(),
            sync_configs: Vec::new(),
            conflict_resolver: ConflictResolver::new(ConflictStrategy::NewerWins),
        }
    }

    fn position(&self, ptype: ProviderType) -> (r: Option<usize>)
        ensures
            match r {
                Some(i) => i < self.providers@.len() && self.providers@[i as int].kind() == ptype
                    && provider_of(self.providers@, ptype) == Some(self.providers@[i as int]),
                None => provider_of(self.providers@, ptype) is None && forall|i: int|
                    0 <= i < self.providers@.len() ==> (#[trigger] self.providers@[i]).kind()
                        != ptype,
            },
    {
        let mut i: usize = 0;
        assert(self.providers@.skip(0) =~= self.providers@);
        while i < self.providers.len()
            invariant
                i <= self.providers@.len(),
                forall|j: int| 0 <= j < i ==> (#[trigger] self.providers@[j]).kind() != ptype,
                provider_of(self.providers@, ptype) == provider_of(
                    self.providers@.skip(i as int),
                    ptype,
                ),
            decreases self.providers@.len() - i,
        {
            assert(self.providers@.skip(i as int)[0] == self.providers@[i as int]);
            assert(self.providers@.skip(i as int).drop_first() =~= self.providers@.skip(
                i as int + 1,
            ));
            if self.providers[i].provider_type() == ptype {
                return Some(i);
            }
            i += 1;
        }
        None
    }

    /// Add a provider, in place of the one of its kind if there is one.
    pub fn add_provider(&mut self, provider: P)
        requires
            old(self).wf(),
        ensures
            final(self).wf(),
            final(self).sync_configs == old(self).sync_configs,
            final(self).conflict_resolver == old(self).conflict_resolver,
            match provider_index(old(self).providers@, provider.kind()) {
                Some(i) => final(self).providers@ == old(self).providers@.update(i, provider),
                None => final(self).providers@ == old(self).providers@.push(provider),
            },
    {
        match self.position(provider.provider_type()) {
            Some(i) => {
                proof {
                    lemma_provider_index(self.providers@, provider.kind(), i as int);
                }
                self.providers.set(i, provider);
            },
            None => {
                self.providers.push(provider);
            },
        }
    }

    pub fn get_provider(&self, ptype: ProviderType) -> (r: Option<&P>)
        ensures
            match r {
                Some(p) => provider_of(self.providers@, ptype) == Some(*p),
                None => provider_of(self.providers@, ptype) is None,
            },
    {
        match self.position(ptype) {
            Some(i) => Some(&self.providers[i]),
            None => None,
        }
    }

    /// The provider of a kind, to be changed; whatever becomes of it stands in its place.
    pub fn get_provider_mut(&mut self, ptype: ProviderType) -> (r: Option<&mut P>)
        requires
            old(self).wf(),
        ensures
            final(self).sync_configs == old(self).sync_configs,
            final(self).conflict_resolver == old(self).conflict_resolver,
            match provider_index(old(self).providers@, ptype) {
                Some(i) => r matches Some(p) && {
                    &&& *p == old(self).providers@[i]
                    &&& final(self).providers@ == old(self).providers@.update(i, *final(p))
                },
                None => r is None && final(self).providers@ == old(self).providers@,
            },
    {
        match self.position(ptype) {
            Some(i) => {
                proof {
                    lemma_provider_index(self.providers@, ptype, i as int);
                }
                Some(&mut self.providers[i])
            },
            None => None,
        }
    }

    pub fn set_conflict_strategy(&mut self, strategy: ConflictStrategy)
        ensures
            final(self).providers == old(self).providers,
            final(self).sync_configs == old(self).sync_configs,
            final(self).conflict_resolver.strategy() == strategy,
            final(self).conflict_resolver.pending().len() == 0,
    {
        self.conflict_resolver = ConflictResolver::new(strategy);
    }

    pub fn add_sync_config(&mut self, config: SyncFolderConfig)
        ensures
            final(self).providers == old(self).providers,
            final(self).conflict_resolver == old(self).conflict_resolver,
            final(self).sync_configs@ == old(self).sync_configs@.push(config),
    {
        self.sync_configs.push(config);
    }
}

/// Where the provider of a kind stands.
pub open spec fn provider_index<P: CloudProvider>(ps: Seq<P>, kind: ProviderType) -> Option<int> {
    if exists|i: int| 0 <= i < ps.len() && (#[trigger] ps[i]).kind() == kind {
        Some(choose|i: int| 0 <= i < ps.len() && (#[trigger] ps[i]).kind() == kind)
    } else {
        None
    }
}

proof fn lemma_provider_index<P: CloudProvider>(ps: Seq<P>, kind: ProviderType, i: int)
    requires
        forall|a: int, b: int|
            0 <= a < b < ps.len() ==> (#[trigger] ps[a]).kind() != (#[trigger] ps[b]).kind(),
        0 <= i < ps.len(),
        ps[i].kind() == kind,
    ensures
        provider_index(ps, kind) == Some(i),
{
    let j = choose|j: int| 0 <= j < ps.len() && (#[trigger] ps[j]).kind() == kind;
    if i < j {
        assert(ps[i].kind() != ps[j].kind());
    } else if j < i {
        assert(ps[j].kind() != ps[i].kind());
    }
}

/// The provider of a kind is the first that is of it; there is none exactly where none is.
pub proof fn law_the_first_provider_of_a_kind_is_used<P: CloudProvider>(
    ps: Seq<P>,
    kind: ProviderType,
)
    ensures
        provider_of(ps, kind) is None <==> forall|i: int|
            0 <= i < ps.len() ==> (#[trigger] ps[i]).kind() != kind,
        provider_of(ps, kind) matches Some(p) ==> p.kind() == kind && ps.contains(p),
        forall|i: int|
            0 <= i < ps.len() && (#[trigger] ps[i]).kind() == kind && (forall|j: int|
                0 <= j < i ==> (#[trigger] ps[j]).kind() != kind) ==> provider_of(ps, kind)
                == Some(ps[i]),
    decreases ps.len(),
{
    if ps.len() > 0 && ps[0].kind() != kind {
        let rest = ps.drop_first();
        law_the_first_provider_of_a_kind_is_used(rest, kind);
        assert forall|i: int| 0 <= i < rest.len() implies #[trigger] rest[i] == ps[i + 1] by {}
        if provider_of(ps, kind) is None {
            assert forall|i: int| 0 <= i < ps.len() implies (#[trigger] ps[i]).kind() != kind by {
                if i > 0 {
                    assert(rest[i - 1].kind() != kind);
                }
            }
        }
        if forall|i: int| 0 <= i < ps.len() ==> (#[trigger] ps[i]).kind() != kind {
            assert forall|i: int| 0 <= i < rest.len() implies (#[trigger] rest[i]).kind()
                != kind by {
                assert(ps[i + 1].kind() != kind);
            }
        }
        if let Some(p) = provider_of(ps, kind) {
            let i = choose|i: int| 0 <= i < rest.len() && rest[i] == p;
            assert(ps[i + 1] == p);
        }
        assert forall|i: int|
            0 <= i < ps.len() && (#[trigger] ps[i]).kind() == kind && (forall|j: int|
                0 <= j < i ==> (#[trigger] ps[j]).kind() != kind) implies provider_of(ps, kind)
            == Some(ps[i]) by {
            assert(i > 0);
            assert(rest[i - 1] == ps[i]);
            assert forall|j: int| 0 <= j < i - 1 implies (#[trigger] rest[j]).kind() != kind by {
                assert(ps[j + 1].kind() != kind);
            }
        }
    } else if ps.len() > 0 {
        assert(ps[0].kind() == kind);
    }
}

/// Trying again helps against every failure but these: the file is gone, its content is not handed
/// out, or its path is not safe.
pub proof fn law_failures_that_stay(e: IntegrationErrorView)
    ensures
        permanent(e) <==> match e {
            IntegrationErrorView::NotFound(_) => true,
            IntegrationErrorView::NotDownloadable(_) => true,
            IntegrationErrorView::InvalidPath(_) => true,
            _ => false,
        },
{
}

/// What an error is told with tells which it is: the text of the cause stands at its end.
pub proof fn law_errors_tell_their_cause(cause: Seq<char>)
    ensures
        error_text(IntegrationErrorView::OAuth(cause)) == "OAuth error: "@ + cause,
        error_text(IntegrationErrorView::TokenRefreshFailed(cause)) == "Token refresh failed: "@
            + cause,
        error_text(IntegrationErrorView::Api(cause)) == "API error: "@ + cause,
        error_text(IntegrationErrorView::NotFound(cause)) == "File not found: "@ + cause,
        error_text(IntegrationErrorView::NotDownloadable(cause)) == "File not downloadable: "@
            + cause,
        error_text(IntegrationErrorView::ResyncRequired(cause)) == "Resync required: "@ + cause,
        error_text(IntegrationErrorView::Conflict(cause)) == "Conflict: "@ + cause,
        error_text(IntegrationErrorView::Network(cause)) == "Network error: "@ + cause,
        error_text(IntegrationErrorView::Serialization(cause)) == "Serialization error: "@ + cause,
        error_text(IntegrationErrorView::Io(cause)) == "IO error: "@ + cause,
        error_text(IntegrationErrorView::InvalidPath(cause)) == "Unsafe path rejected: "@ + cause,
{
}

/// A token is refreshed with its refresh token; without one, or without a token, it cannot be.
pub proof fn law_what_a_token_is_refreshed_with(
    r: Result<&str, IntegrationError>,
    token: Option<OAuthToken>,
)
    requires
        is_refresh_grant(r, token),
    ensures
        r is Ok <==> token is Some && token->0.refresh_token is Some,
        r matches Ok(s) ==> s@ == token->0.refresh_token->0@,
        token is None ==> (r matches Err(e) && e is NotConfigured),
        token is Some && token->0.refresh_token is None ==> (r matches Err(e)
            && e is TokenRefreshFailed),
{
}

/// A file and a folder are told as they are.
pub proof fn law_files_are_told_as_they_are(f: CloudFile, d: CloudFolder)
    ensures
        f@.id == f.id@ && f@.name == f.name@ && f@.path == f.path@,
        f@.size == f.size && f@.modified_at == f.modified_at,
        f@.is_folder == f.is_folder && f@.deleted == f.deleted,
        f.mime_type matches Some(m) ==> f@.mime_type == Some(m@),
        f.mime_type is None ==> f@.mime_type is None,
        f.content_hash matches Some(h) ==> f@.content_hash == Some(h@),
        f.content_hash is None ==> f@.content_hash is None,
        f.parent_id matches Some(p) ==> f@.parent_id == Some(p@),
        f.parent_id is None ==> f@.parent_id is None,
        d@.id == d.id@ && d@.name == d.name@ && d@.path == d.path@,
        d.parent_id matches Some(p) ==> d@.parent_id == Some(p@),
        d.parent_id is None ==> d@.parent_id is None,
{
}

/// The place of a provider is one where a provider of its kind is, and there is none only where no
/// provider is of it.
pub proof fn law_the_place_of_a_provider<P: CloudProvider>(ps: Seq<P>, kind: ProviderType)
    ensures
        provider_index(ps, kind) matches Some(i) ==> 0 <= i < ps.len() && ps[i].kind() == kind,
        provider_index(ps, kind) is None <==> forall|i: int|
            0 <= i < ps.len() ==> (#[trigger] ps[i]).kind() != kind,
{
}

} // verus!

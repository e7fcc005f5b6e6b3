//! Google Drive integration: what is sent to Drive API v3, and what its answers mean.

use vstd::prelude::*;
use vstd::string::*;

use crate::clock::unix_seconds;
use crate::codec::url_encode;
use crate::integrations::http::{api_error, retry_after};
use crate::integrations::oauth::{OAuthConfig, OAuthProvider, OAuthToken};
use crate::integrations::walk::{FolderInfo, Item, Pages, Search};
use crate::integrations::{
    refresh_grant, CloudFile, CloudFolder, CloudProvider, IntegrationError, ProviderType,
    StorageQuota,
};
use crate::text::{contains, join, parse_u64, quoted, same, to_chars, trim_end_char};

verus! {

pub const API_BASE: &'static str = "https://www.googleapis.com/drive/v3";

pub const UPLOAD_BASE: &'static str = "https://www.googleapis.com/upload/drive/v3";

pub const FOLDER_MIME: &'static str = "application/vnd.google-apps.folder";

/// Fields requested for every listed file (plus `nextPageToken` for paging).
pub const LIST_FIELDS: &'static str =
    "nextPageToken,files(id,name,mimeType,size,modifiedTime,md5Checksum,parents)";

/// What separates the parts of an upload.
pub const BOUNDARY: &'static str = "remarkable_upload_boundary";

/// A character within a single-quoted string of a `q` expression.
pub open spec fn query_char(c: char) -> Seq<char> {
    if c == '\\' || c == '\'' {
        seq!['\\', c]
    } else {
        seq![c]
    }
}

/// A text within a single-quoted string of a `q` expression.
pub open spec fn query_text(s: Seq<char>) -> Seq<char>
    decreases s.len(),
{
    if s.len() == 0 {
        Seq::empty()
    } else {
        query_text(s.drop_last()) + query_char(s.last())
    }
}

/// Escape a value for a single-quoted string in a Drive `q` expression.
pub fn escape_query(s: &str) -> (r: String)
    ensures
        r@ == query_text(s@),
{
    let cs = to_chars(s);
    let mut out = String::new();
    let mut i: usize = 0;
    assert(out@ =~= query_text(s@.take(0)));
    while i < cs.len()
        invariant
            i <= cs@.len(),
            cs@ == s@,
            out@ == query_text(s@.take(i as int)),
        decreases cs@.len() - i,
    {
        let c = cs[i];
        let ghost was = out@;
        assert(s@.take(i as int + 1).drop_last() =~= s@.take(i as int));
        if c == '\\' || c == '\'' {
            out.push('\\');
        }
        out.push(c);
        assert(out@ =~= was + query_char(c));
        i += 1;
    }
    assert(s@.take(i as int) =~= s@);
    out
}

/// Whether position `i` of a text is escaped: an odd run of backslashes stands before it.
pub open spec fn escaped_at(s: Seq<char>, i: int) -> bool
    decreases i,
{
    0 < i <= s.len() && s[i - 1] == '\\' && !escaped_at(s, i - 1)
}

/// Whether a text, put into a single-quoted string, can neither end it nor escape what follows:
/// each quote in it is escaped, and its end is not.
pub open spec fn stays_quoted(s: Seq<char>) -> bool {
    &&& forall|i: int| 0 <= i < s.len() && #[trigger] s[i] == '\'' ==> escaped_at(s, i)
    &&& !escaped_at(s, s.len() as int)
}

/// What stands at a position's left decides whether it is escaped.
proof fn lemma_escaped_prefix(a: Seq<char>, b: Seq<char>, i: int)
    requires
        0 <= i <= a.len(),
    ensures
        escaped_at(a + b, i) == escaped_at(a, i),
    decreases i,
{
    if i > 0 {
        lemma_escaped_prefix(a, b, i - 1);
        assert((a + b)[i - 1] == a[i - 1]);
    }
}

/// Whatever a name is, its escaped form cannot end the quoted string of a query that it is put
/// into.
pub proof fn law_escaped_text_stays_quoted(s: Seq<char>)
    ensures
        stays_quoted(query_text(s)),
    decreases s.len(),
{
    if s.len() > 0 {
        let rest = s.drop_last();
        law_escaped_text_stays_quoted(rest);
        let a = query_text(rest);
        let c = s.last();
        let b = query_char(c);
        let n = a.len() as int;
        let whole = a + b;
        lemma_escaped_prefix(a, b, n);
        assert(whole[n] == b[0]);
        assert(escaped_at(whole, n + 1) == (b[0] == '\\'));
        if b.len() == 2 {
            assert(whole[n + 1] == c);
            assert(!escaped_at(whole, n + 2));
        }
        assert forall|i: int| 0 <= i < whole.len() && #[trigger] whole[i] == '\'' implies
            escaped_at(whole, i) by {
            if i < n {
                assert(whole[i] == a[i]);
                lemma_escaped_prefix(a, b, i);
            }
        }
    }
}

/// Google Drive provider.
#[derive(Debug)]
pub struct GoogleDrive {
    pub config: OAuthConfig,
    pub token: Option<OAuthToken>,
    pub api_base: String,
    pub upload_base: String,
}

/// The query for the entries of a folder.
pub open spec fn children_query(folder: Seq<char>) -> Seq<char> {
    "'"@ + query_text(folder) + "' in parents and trashed = false"@
}

/// The query for a folder of a name in a folder.
pub open spec fn folder_query(parent: Seq<char>, name: Seq<char>) -> Seq<char> {
    "name = '"@ + query_text(name) + "' and '"@ + query_text(parent)
        + "' in parents and mimeType = '"@ + FOLDER_MIME@ + "' and trashed = false"@
}

/// The query for every folder.
pub open spec fn folders_query() -> Seq<char> {
    "mimeType = '"@ + FOLDER_MIME@ + "' and trashed = false"@
}

/// The query for the entries of a folder.
pub fn entries_query(folder: &str) -> (r: String)
    ensures
        r@ == children_query(folder@),
{
    let mut out = "'".to_owned();
    out.push_str(escape_query(folder).as_str());
    out.push_str("' in parents and trashed = false");
    out
}

/// The query for every folder.
pub fn all_folders_query() -> (r: String)
    ensures
        r@ == folders_query(),
{
    let mut out = "mimeType = '".to_owned();
    out.push_str(FOLDER_MIME);
    out.push_str("' and trashed = false");
    out
}

impl GoogleDrive {
    pub fn new(config: OAuthConfig) -> (r: Self)
        ensures
            r.config == config,
            r.token is None,
            r.api_base@ == API_BASE@,
            r.upload_base@ == UPLOAD_BASE@,
    {
        GoogleDrive {
            config,
            token: None,
            api_base: API_BASE.to_owned(),
            upload_base: UPLOAD_BASE.to_owned(),
        }
    }

    pub fn with_token(config: OAuthConfig, token: OAuthToken) -> (r: Self)
        ensures
            r.config == config,
            r.token == Some(token),
            r.api_base@ == API_BASE@,
            r.upload_base@ == UPLOAD_BASE@,
    {
        GoogleDrive {
            config,
            token: Some(token),
            api_base: API_BASE.to_owned(),
            upload_base: UPLOAD_BASE.to_owned(),
        }
    }

    /// Point the provider at a different Drive API / upload endpoint (tests, proxies).
    pub fn with_base_urls(self, api_base: &str, upload_base: &str) -> (r: Self)
        ensures
            r.config == self.config,
            r.token == self.token,
            r.api_base@ == crate::text::trimmed_end(api_base@, '/'),
            r.upload_base@ == crate::text::trimmed_end(upload_base@, '/'),
    {
        GoogleDrive {
            config: self.config,
            token: self.token,
            api_base: trim_end_char(api_base, '/').to_owned(),
            upload_base: trim_end_char(upload_base, '/').to_owned(),
        }
    }

    /// The token that requests carry; without one the provider is not configured.
    pub fn access_token(&self) -> (r: Result<&str, IntegrationError>)
        ensures
            match self.token {
                Some(t) => r matches Ok(s) && s@ == t.access_token@,
                None => r == Err::<&str, IntegrationError>(IntegrationError::NotConfigured),
            },
    {
        match &self.token {
            Some(t) => Ok(t.access_token.as_str()),
            None => Err(IntegrationError::NotConfigured),
        }
    }

    /// The refresh token to ask for a new token with.
    pub fn refresh_grant(&self) -> (r: Result<&str, IntegrationError>)
        ensures
            crate::integrations::is_refresh_grant(r, self.token),
    {
        refresh_grant(&self.token)
    }

    /// Where a non-trashed child folder of `parent` named `name` is looked for.
    pub fn find_folder_url(&self, parent: &str, name: &str) -> (r: String)
        ensures
            r@ == self.api_base@ + "/files?q="@ + crate::codec::percent_encoded(
                folder_query(parent@, name@),
            ) + "&fields=files(id,name,mimeType,parents)"@,
    {
        let mut query = "name = '".to_owned();
        query.push_str(escape_query(name).as_str());
        query.push_str("' and '");
        query.push_str(escape_query(parent).as_str());
        query.push_str("' in parents and mimeType = '");
        query.push_str(FOLDER_MIME);
        query.push_str("' and trashed = false");
        let mut out = self.api_base.clone();
        out.push_str("/files?q=");
        out.push_str(url_encode(query.as_str()).as_str());
        out.push_str("&fields=files(id,name,mimeType,parents)");
        out
    }

    /// Where a page of the files that match `query` is.
    pub fn list_url(&self, query: &str, page_token: Option<&str>) -> (r: String)
        ensures
            ({
                let first = self.api_base@ + "/files?q="@ + crate::codec::percent_encoded(query@)
                    + "&pageSize=1000&orderBy=createdTime&fields="@ + crate::codec::percent_encoded(
                    LIST_FIELDS@,
                );
                r@ == match page_token {
                    None => first,
                    Some(t) => first + "&pageToken="@ + crate::codec::percent_encoded(t@),
                }
            }),
    {
        let mut out = self.api_base.clone();
        out.push_str("/files?q=");
        out.push_str(url_encode(query).as_str());
        out.push_str("&pageSize=1000&orderBy=createdTime&fields=");
        out.push_str(url_encode(LIST_FIELDS).as_str());
        if let Some(t) = page_token {
            out.push_str("&pageToken=");
            out.push_str(url_encode(t).as_str());
        }
        out
    }

    /// Where the metadata of folder `id` for path resolution is.
    pub fn folder_url(&self, id: &str) -> (r: String)
        ensures
            r@ == self.api_base@ + "/files/"@ + crate::codec::percent_encoded(id@)
                + "?fields=id,name,mimeType,parents,trashed"@,
    {
        let mut out = self.api_base.clone();
        out.push_str("/files/");
        out.push_str(url_encode(id).as_str());
        out.push_str("?fields=id,name,mimeType,parents,trashed");
        out
    }

    /// Where the changes since `cursor` are.
    pub fn changes_url(&self, cursor: &str) -> (r: String)
        ensures
            r@ == self.api_base@ + "/changes?pageToken="@ + crate::codec::percent_encoded(cursor@)
                + "&fields=changes(fileId,file(id,name,mimeType,size,modifiedTime,md5Checksum,parents,trashed),removed),newStartPageToken,nextPageToken"@,
    {
        let mut out = self.api_base.clone();
        out.push_str("/changes?pageToken=");
        out.push_str(url_encode(cursor).as_str());
        out.push_str(
            "&fields=changes(fileId,file(id,name,mimeType,size,modifiedTime,md5Checksum,parents,trashed),removed),newStartPageToken,nextPageToken",
        );
        out
    }

    /// Where the file `id` is, or what `rest` says of it.
    pub fn file_url(&self, id: &str, rest: &str) -> (r: String)
        ensures
            r@ == self.api_base@ + "/files/"@ + id@ + rest@,
    {
        let mut out = self.api_base.clone();
        out.push_str("/files/");
        out.push_str(id);
        out.push_str(rest);
        out
    }

    /// Where the file `id` is moved from one folder to another; one without a folder is at the
    /// root.
    pub fn move_url(&self, id: &str, to: &str, from: Option<&str>) -> (r: String)
        ensures
            r@ == self.api_base@ + "/files/"@ + id@ + "?addParents="@ + to@ + "&removeParents="@
                + (match from {
                Some(f) => f@,
                None => "root"@,
            }) + "&fields=id,name,mimeType,size,modifiedTime,md5Checksum,parents"@,
    {
        let mut out = self.api_base.clone();
        out.push_str("/files/");
        out.push_str(id);
        out.push_str("?addParents=");
        out.push_str(to);
        out.push_str("&removeParents=");
        out.push_str(
            match from {
                Some(f) => f,
                None => "root",
            },
        );
        out.push_str("&fields=id,name,mimeType,size,modifiedTime,md5Checksum,parents");
        out
    }
}

impl CloudProvider for GoogleDrive {
    open spec fn kind(&self) -> ProviderType {
        ProviderType::GoogleDrive
    }

    open spec fn token(&self) -> Option<OAuthToken> {
        self.token
    }

    fn provider_type(&self) -> (r: ProviderType) {
        ProviderType::GoogleDrive
    }

    fn is_authenticated(&self) -> (r: bool) {
        self.token.is_some()
    }

    fn get_token(&self) -> (r: Option<&OAuthToken>) {
        match &self.token {
            Some(t) => Some(t),
            None => None,
        }
    }

    fn set_token(&mut self, token: OAuthToken) {
        self.token = Some(token);
    }
}

impl OAuthProvider for GoogleDrive {
    open spec fn config(&self) -> OAuthConfig {
        self.config
    }

    fn oauth_config(&self) -> (r: &OAuthConfig) {
        &self.config
    }

    fn oauth_config_mut(&mut self) -> (r: &mut OAuthConfig) {
        &mut self.config
    }
}

/// How a listing goes on after a page that gives `token`: by it, unless there is none; one that
/// was given before would go on forever, so the listing fails rather than return a partial list (a
/// partial list makes sync re-upload everything it didn't see).
pub fn next_page(pages: &mut Pages, token: Option<String>) -> (r: Result<
    Option<String>,
    IntegrationError,
>)
    ensures
        ({
            let used = crate::text::texts(old(pages).used@);
            match crate::text::text_of(token) {
                Some(t) => if t.len() == 0 {
                    r matches Ok(None) && *final(pages) == *old(pages)
                } else {
                    &&& crate::text::texts(final(pages).used@) == crate::integrations::walk::with(
                        used,
                        t,
                    )
                    &&& if used.contains(t) {
                        r matches Err(e) && e@ == crate::integrations::IntegrationErrorView::Api(
                            "Drive returned repeated page token "@ + crate::text::debug_text(t),
                        )
                    } else {
                        r matches Ok(Some(n)) && n@ == t
                    }
                },
                None => r matches Ok(None) && *final(pages) == *old(pages),
            }
        }),
{
    match token {
        None => Ok(None),
        Some(t) => {
            if t.as_str().is_empty() {
                return Ok(None);
            }
            if pages.follow(t.as_str()) {
                Ok(Some(t))
            } else {
                let mut out = "Drive returned repeated page token ".to_owned();
                out.push_str(quoted(t.as_str()).as_str());
                Err(IntegrationError::Api(out))
            }
        },
    }
}

/// What a response that is no success means. 404 and a 403 for content that can never be
/// downloaded (Docs editor files, downloads disabled by the owner) are permanent; auth, rate
/// limits, other 403s and 5xx stay retryable.
pub open spec fn error_of(
    status: u16,
    retry_after: Option<Seq<char>>,
    body: Seq<char>,
) -> crate::integrations::IntegrationErrorView {
    if status == 401 {
        crate::integrations::IntegrationErrorView::TokenExpired
    } else if status == 429 {
        crate::integrations::IntegrationErrorView::RateLimited(
            crate::integrations::http::wait_of(retry_after),
        )
    } else if status == 403 {
        if crate::text::holds(body, "storageQuotaExceeded"@) {
            crate::integrations::IntegrationErrorView::QuotaExceeded
        } else if crate::text::holds(body, "fileNotDownloadable"@) || crate::text::holds(
            body,
            "cannotDownloadFile"@,
        ) || crate::text::holds(body, "cannotDownloadAbusiveFile"@) {
            crate::integrations::IntegrationErrorView::NotDownloadable(body)
        } else {
            crate::integrations::IntegrationErrorView::Api("Forbidden: "@ + body)
        }
    } else if status == 404 {
        crate::integrations::IntegrationErrorView::NotFound("File not found"@)
    } else {
        crate::integrations::IntegrationErrorView::Api(
            crate::integrations::http::status_text(status) + ": "@ + body,
        )
    }
}

/// Map a non-success Drive response, its `Retry-After` header and its body to an error.
pub fn response_error(status: u16, retry: Option<&str>, body: &str) -> (r: IntegrationError)
    requires
        100 <= status <= 999,
    ensures
        r@ == error_of(status, crate::text::text_of_str(retry), body@),
{
    if status == 401 {
        IntegrationError::TokenExpired
    } else if status == 429 {
        IntegrationError::RateLimited { retry_after_secs: retry_after(retry) }
    } else if status == 403 {
        if contains(body, "storageQuotaExceeded") {
            IntegrationError::QuotaExceeded
        } else if contains(body, "fileNotDownloadable") || contains(body, "cannotDownloadFile")
            || contains(body, "cannotDownloadAbusiveFile") {
            IntegrationError::NotDownloadable(body.to_owned())
        } else {
            let mut out = "Forbidden: ".to_owned();
            out.push_str(body);
            IntegrationError::Api(out)
        }
    } else if status == 404 {
        IntegrationError::NotFound("File not found".to_owned())
    } else {
        api_error(status, body)
    }
}

/// Folder that change paths are resolved against: its id as configured, plus the real id when that
/// is the `root` alias.
#[derive(Debug)]
pub struct SyncRoot(pub String, pub Option<String>);

impl SyncRoot {
    /// The ids of the folder.
    pub open spec fn ids(self) -> Seq<Seq<char>> {
        match self.1 {
            Some(id) => seq![self.0@, id@],
            None => seq![self.0@],
        }
    }

    /// Whether `id` is this folder.
    pub fn is(&self, id: &str) -> (r: bool)
        ensures
            r == self.ids().contains(id@),
    {
        proof {
            assert(self.ids()[0] == self.0@);
            if self.1 is Some {
                assert(self.ids()[1] == self.1->0@);
            }
        }
        same(self.0.as_str(), id) || match &self.1 {
            Some(real_id) => same(real_id.as_str(), id),
            None => false,
        }
    }

    /// The ids of the folder, to search for paths below it.
    pub fn to_ids(&self) -> (r: Vec<String>)
        ensures
            crate::text::texts(r@) == self.ids(),
    {
        let mut out: Vec<String> = Vec::new();
        out.push(self.0.clone());
        if let Some(id) = &self.1 {
            out.push(id.clone());
        }
        assert(crate::text::texts(out@) =~= self.ids());
        out
    }
}

/// The sync root for change resolution, if the configured folder tells it: My Drive's real id (the
/// one that appears in `parents`) has to be looked up, since `root` is only an alias.
pub fn configured_root(folder_id: Option<&str>) -> (r: Option<SyncRoot>)
    ensures
        match crate::text::text_of_str(folder_id) {
            Some(id) => if id == "root"@ {
                r is None
            } else {
                r matches Some(root) && root.0@ == id && root.1 is None
            },
            None => r is None,
        },
{
    match folder_id {
        Some(id) => {
            if same(id, "root") {
                None
            } else {
                Some(SyncRoot(id.to_owned(), None))
            }
        },
        None => None,
    }
}

/// Google Drive file response.
#[derive(Debug)]
pub struct DriveFile {
    pub id: String,
    pub name: String,
    pub mime_type: String,
    pub size: Option<String>,
    pub modified_time: Option<String>,
    pub md5_checksum: Option<String>,
    pub parents: Option<Vec<String>>,
    pub trashed: Option<bool>,
}

/// The number that a text is; 0 for none.
pub open spec fn size_of(text: Option<String>) -> u64 {
    match text {
        Some(t) => if crate::text::is_number(t@, u64::MAX as nat) {
            crate::text::number(crate::text::unsigned(t@)) as u64
        } else {
            0
        },
        None => 0,
    }
}

/// The number that a text is, if it is one.
pub open spec fn number_of(text: Option<String>) -> Option<u64> {
    match text {
        Some(t) => if crate::text::is_number(t@, u64::MAX as nat) {
            Some(crate::text::number(crate::text::unsigned(t@)) as u64)
        } else {
            None
        },
        None => None,
    }
}

fn parsed(text: &Option<String>) -> (r: Option<u64>)
    ensures
        r == number_of(*text),
{
    match text {
        Some(t) => parse_u64(t.as_str()),
        None => None,
    }
}

/// The first of a list that may be missing.
pub open spec fn first_of(v: Option<Vec<String>>) -> Option<Seq<char>> {
    match v {
        Some(v) => if v@.len() > 0 {
            Some(v@[0]@)
        } else {
            None
        },
        None => None,
    }
}

fn first(v: &Option<Vec<String>>) -> (r: Option<String>)
    ensures
        crate::text::text_of(r) == first_of(*v),
{
    match v {
        Some(v) => {
            if v.len() > 0 {
                Some(v[0].clone())
            } else {
                None
            }
        },
        None => None,
    }
}

fn rooted(name: &str) -> (r: String)
    ensures
        r@ == "/"@ + name@,
{
    let mut out = "/".to_owned();
    out.push_str(name);
    out
}

impl DriveFile {
    /// The cloud file that this is, at a path.
    pub open spec fn file(self, path: Seq<char>) -> crate::integrations::CloudFileView {
        crate::integrations::CloudFileView {
            id: self.id@,
            name: self.name@,
            mime_type: Some(self.mime_type@),
            size: size_of(self.size),
            modified_at: crate::clock::seconds_of(self.modified_time),
            content_hash: crate::text::text_of(self.md5_checksum),
            parent_id: first_of(self.parents),
            is_folder: self.mime_type@ == FOLDER_MIME@,
            path,
            deleted: false,
        }
    }

    pub fn to_cloud_file(&self, path: String) -> (r: CloudFile)
        ensures
            r@ == self.file(path@),
            r.id@ == self.id@,
            r.name@ == self.name@,
            r.mime_type matches Some(m) && m@ == self.mime_type@,
            r.path@ == path@,
            r.modified_at == (match self.modified_time {
                Some(t) => match crate::clock::rfc3339_value(t@) {
                    Some((seconds, _)) => seconds,
                    None => 0,
                },
                None => 0,
            }),
            r.size == (match self.size {
                Some(t) => if crate::text::is_number(t@, u64::MAX as nat) {
                    crate::text::number(crate::text::unsigned(t@))
                } else {
                    0
                },
                None => 0,
            }),
            forall|n: nat|
                n <= u64::MAX && (self.size matches Some(t) && t@ == #[trigger] crate::text::decimal(
                    n,
                )) ==> r.size == n,
            r.content_hash is Some <==> self.md5_checksum is Some,
            r.content_hash matches Some(h) ==> h@ == self.md5_checksum->0@,
            r.parent_id is Some <==> (self.parents matches Some(p) && p@.len() > 0),
            r.parent_id matches Some(p) ==> p@ == self.parents->0@[0]@,
            r.is_folder <==> self.mime_type@ == FOLDER_MIME@,
            !r.deleted,
    {
        proof {
            assert forall|n: nat|
                n <= u64::MAX && (self.size matches Some(t) && t@ == #[trigger] crate::text::decimal(
                    n,
                )) implies size_of(self.size) == n by {
                crate::text::law_numbers_read_back(n);
                assert(crate::text::is_number(crate::text::decimal(n), u64::MAX as nat));
                assert('0' <= crate::text::decimal(n)[0]);
            }
        }
        CloudFile {
            id: self.id.clone(),
            name: self.name.clone(),
            mime_type: Some(self.mime_type.clone()),
            size: match parsed(&self.size) {
                Some(n) => n,
                None => 0,
            },
            modified_at: unix_seconds(&self.modified_time),
            content_hash: self.md5_checksum.clone(),
            parent_id: first(&self.parents),
            is_folder: same(self.mime_type.as_str(), FOLDER_MIME),
            path,
            deleted: false,
        }
    }

    /// The file as if it were in the root: what answers about a single file are taken for.
    pub fn to_root_file(&self) -> (r: CloudFile)
        ensures
            r@ == self.file("/"@ + self.name@),
            r.id@ == self.id@,
            r.name@ == self.name@,
            r.path@ == "/"@ + self.name@,
            r.is_folder <==> self.mime_type@ == FOLDER_MIME@,
    {
        self.to_cloud_file(rooted(self.name.as_str()))
    }

    pub fn to_cloud_folder(&self) -> (r: CloudFolder)
        ensures
            r@ == (crate::integrations::CloudFolderView {
                id: self.id@,
                name: self.name@,
                path: "/"@ + self.name@,
                parent_id: first_of(self.parents),
            }),
    {
        CloudFolder {
            id: self.id.clone(),
            name: self.name.clone(),
            path: rooted(self.name.as_str()),
            parent_id: first(&self.parents),
        }
    }

    /// Whether this is a folder.
    pub fn is_folder(&self) -> (r: bool)
        ensures
            r == (self.mime_type@ == FOLDER_MIME@),
    {
        same(self.mime_type.as_str(), FOLDER_MIME)
    }

    /// The parents, none where they are missing.
    pub open spec fn parent_ids(self) -> Seq<Seq<char>> {
        match self.parents {
            Some(p) => crate::text::texts(p@),
            None => Seq::empty(),
        }
    }

    fn copy_parents(&self) -> (r: Vec<String>)
        ensures
            crate::text::texts(r@) == self.parent_ids(),
    {
        match &self.parents {
            Some(p) => crate::integrations::walk::copy(p),
            None => {
                let r: Vec<String> = Vec::new();
                assert(crate::text::texts(r@) =~= Seq::empty());
                r
            },
        }
    }

    /// The file as an item whose path is wanted.
    pub fn to_item(&self) -> (r: Item)
        ensures
            r@ == (crate::integrations::walk::ItemView {
                name: self.name@,
                parents: self.parent_ids(),
            }),
    {
        Item { name: self.name.clone(), parents: self.copy_parents() }
    }

    /// What finding paths needs to know about this folder; nothing if it is in the trash.
    pub fn to_folder_info(&self) -> (r: Option<FolderInfo>)
        ensures
            match r {
                Some(f) => self.trashed != Some(true) && f@
                    == (crate::integrations::walk::FolderView {
                    name: self.name@,
                    parents: self.parent_ids(),
                    is_drive_root: false,
                }),
                None => self.trashed == Some(true),
            },
    {
        if self.trashed == Some(true) {
            None
        } else {
            Some(
                FolderInfo {
                    name: self.name.clone(),
                    parents: self.copy_parents(),
                    is_drive_root: false,
                },
            )
        }
    }
}

/// What a change is about.
#[derive(Debug)]
pub struct Change {
    pub file: Option<DriveFile>,
    pub removed: Option<bool>,
}

/// Whether a change leaves a file that is there.
pub open spec fn is_live(c: Change) -> bool {
    c.removed != Some(true) && (c.file matches Some(f) && f.trashed != Some(true))
}

/// The files that changes leave: those that are there.
pub open spec fn live_files(changes: Seq<Change>) -> Seq<DriveFile>
    decreases changes.len(),
{
    if changes.len() == 0 {
        Seq::empty()
    } else if is_live(changes[0]) {
        seq![changes[0].file->0] + live_files(changes.skip(1))
    } else {
        live_files(changes.skip(1))
    }
}

/// The files that changes leave, in order: those that were neither removed nor trashed.
pub fn live(changes: Vec<Change>) -> (r: Vec<DriveFile>)
    ensures
        r@ == live_files(changes@),
{
    let mut changes = changes;
    let mut out: Vec<DriveFile> = Vec::new();
    let ghost all = changes@;
    assert(all.skip(all.len() as int) =~= Seq::empty());
    assert(live_files(all.skip(all.len() as int)) =~= Seq::empty());
    assert(all.take(all.len() as int) =~= all);
    while changes.len() > 0
        invariant
            changes@.len() <= all.len(),
            changes@ == all.take(changes@.len() as int),
            out@.reverse() == live_files(all.skip(changes@.len() as int)),
        decreases changes@.len(),
    {
        let ghost n = changes@.len() as int;
        let ghost was = out@;
        let ghost rest = all.skip(n - 1);
        assert(rest[0] == all[n - 1]);
        assert(rest.skip(1) =~= all.skip(n));
        let change = changes.pop();
        assert(changes@ =~= all.take(n - 1));
        if let Some(c) = change {
            assert(c == all[n - 1]);
            let trashed = match &c.file {
                Some(f) => f.trashed == Some(true),
                None => true,
            };
            if c.removed != Some(true) && !trashed {
                if let Some(f) = c.file {
                    out.push(f);
                    assert(out@.reverse() =~= seq![f] + was.reverse());
                }
            }
        }
    }
    assert(all.skip(0) =~= all);
    let ghost backwards = out@;
    reverse(&mut out);
    assert(out@ =~= backwards.reverse());
    out
}

fn reverse(v: &mut Vec<DriveFile>)
    ensures
        final(v)@ == old(v)@.reverse(),
{
    let mut out: Vec<DriveFile> = Vec::new();
    let ghost all = v@;
    while v.len() > 0
        invariant
            v@.len() <= all.len(),
            v@ == all.take(v@.len() as int),
            out@ == all.skip(v@.len() as int).reverse(),
        decreases v@.len(),
    {
        let ghost n = v@.len() as int;
        let last = v.pop();
        assert(v@ =~= all.take(n - 1));
        if let Some(f) = last {
            out.push(f);
        }
        assert(out@ =~= all.skip(n - 1).reverse());
    }
    assert(all.skip(0) =~= all);
    *v = out;
}

/// Files as items whose paths are wanted.
pub open spec fn wanted(files: Seq<DriveFile>) -> Seq<crate::integrations::walk::ItemView> {
    files.map_values(
        |f: DriveFile|
            crate::integrations::walk::ItemView { name: f.name@, parents: f.parent_ids() },
    )
}

/// The first `n` files at their paths, but for those without one.
pub open spec fn found(
    files: Seq<DriveFile>,
    paths: Seq<Option<Seq<char>>>,
    n: int,
) -> Seq<crate::integrations::CloudFileView>
    decreases n,
{
    if n <= 0 {
        Seq::empty()
    } else {
        match paths[n - 1] {
            Some(p) => found(files, paths, n - 1).push(files[n - 1].file(p)),
            None => found(files, paths, n - 1),
        }
    }
}

/// Changed files, whose paths are to be found.
pub struct Changed {
    pub files: Vec<DriveFile>,
    /// The same, as items whose paths are wanted.
    pub items: Vec<Item>,
    pub search: Search,
    /// The paths that were found.
    pub placed: Vec<Option<String>>,
}

impl Changed {
    pub open spec fn wf(&self) -> bool {
        &&& self.search.wf()
        &&& self.items@.len() == self.files@.len()
        &&& self.placed@.len() <= self.items@.len()
        &&& crate::integrations::walk::item_views(self.items@) == wanted(self.files@)
    }

    /// The files that changes leave ([`live`]), to be found below the sync root.
    pub fn new(files: Vec<DriveFile>, root: &SyncRoot) -> (r: Self)
        ensures
            r.wf(),
            r.files == files,
            r.placed@.len() == 0,
            r.search@ == (crate::integrations::walk::SearchView {
                known: Map::empty(),
                roots: root.ids(),
                drive: false,
            }),
            r.search.paths() == crate::integrations::walk::Paths::empty(),
    {
        let mut items: Vec<Item> = Vec::new();
        let ghost all = wanted(files@);
        assert(crate::integrations::walk::item_views(items@) =~= all.take(0));
        let mut i: usize = 0;
        while i < files.len()
            invariant
                i <= files@.len(),
                items@.len() == i,
                all == wanted(files@),
                crate::integrations::walk::item_views(items@) == all.take(i as int),
            decreases files@.len() - i,
        {
            items.push(files[i].to_item());
            assert(crate::integrations::walk::item_views(items@) =~= all.take(i as int + 1));
            i += 1;
        }
        assert(all.take(i as int) =~= all);
        Changed { files, items, search: Search::new(root.to_ids(), false), placed: Vec::new() }
    }

    /// Find paths as far as is known: the folder that has to be looked up before it can go on, if
    /// there is one.
    pub fn find(&mut self) -> (r: Option<String>)
        requires
            old(self).wf(),
        ensures
            final(self).wf(),
            final(self).files == old(self).files,
            final(self).items == old(self).items,
            final(self).search@ == old(self).search@,
            ({
                let rest = wanted(old(self).files@).skip(old(self).placed@.len() as int);
                let now = old(self).search@.place(rest, old(self).search.paths());
                &&& crate::integrations::walk::option_texts(final(self).placed@)
                    == crate::integrations::walk::option_texts(old(self).placed@) + now.paths
                &&& final(self).search.paths() == now.after
                &&& crate::text::text_of(r) == now.need
                &&& now.need matches Some(id) ==> !old(self).search@.known.contains_key(id)
            }),
            r is None ==> final(self).placed@.len() == final(self).files@.len(),
    {
        self.search.place(&self.items, &mut self.placed)
    }

    /// A folder was looked up: what there is of it. One in the trash is as good as gone.
    pub fn learn(&mut self, id: String, folder: Option<&DriveFile>)
        requires
            old(self).wf(),
        ensures
            final(self).wf(),
            final(self).files == old(self).files,
            final(self).items == old(self).items,
            final(self).placed == old(self).placed,
            final(self).search.paths() == old(self).search.paths(),
            final(self).search@ == (crate::integrations::walk::SearchView {
                known: old(self).search@.known.insert(
                    id@,
                    match folder {
                        Some(f) => if f.trashed == Some(true) {
                            None
                        } else {
                            Some(
                                crate::integrations::walk::FolderView {
                                    name: f.name@,
                                    parents: f.parent_ids(),
                                    is_drive_root: false,
                                },
                            )
                        },
                        None => None,
                    },
                ),
                ..old(self).search@
            }),
    {
        let info = match folder {
            Some(f) => f.to_folder_info(),
            None => None,
        };
        self.search.learn(id, info);
    }

    /// The files whose paths were found, at them.
    pub fn found(&self) -> (r: Vec<CloudFile>)
        requires
            self.wf(),
        ensures
            crate::integrations::file_views(r@) == found(
                self.files@,
                crate::integrations::walk::option_texts(self.placed@),
                self.placed@.len() as int,
            ),
    {
        let mut out: Vec<CloudFile> = Vec::new();
        let ghost paths = crate::integrations::walk::option_texts(self.placed@);
        let mut k: usize = 0;
        assert(crate::integrations::file_views(out@) =~= Seq::empty());
        while k < self.placed.len()
            invariant
                self.wf(),
                k <= self.placed@.len(),
                paths == crate::integrations::walk::option_texts(self.placed@),
                crate::integrations::file_views(out@) == found(self.files@, paths, k as int),
            decreases self.placed@.len() - k,
        {
            assert(paths[k as int] == crate::text::text_of(self.placed@[k as int]));
            if let Some(path) = &self.placed[k] {
                let ghost was = crate::integrations::file_views(out@);
                out.push(self.files[k].to_cloud_file(path.clone()));
                assert(crate::integrations::file_views(out@) =~= was.push(
                    self.files@[k as int].file(path@),
                ));
            }
            k += 1;
        }
        out
    }
}

/// Where changes go on next time: by the new token, and else by the next page.
pub fn next_cursor(new_start: Option<String>, next: Option<String>) -> (r: Option<String>)
    ensures
        r == (match new_start {
            Some(t) => Some(t),
            None => next,
        }),
{
    match new_start {
        Some(t) => Some(t),
        None => next,
    }
}

/// The body of an upload: the metadata and the content, between boundaries.
pub open spec fn upload_body(metadata: Seq<char>, mime: Seq<char>, content: Seq<u8>) -> Seq<u8> {
    bytes("--"@ + BOUNDARY@ + "\r\nContent-Type: application/json; charset=UTF-8\r\n\r\n"@) + bytes(
        metadata,
    ) + bytes("\r\n--"@ + BOUNDARY@ + "\r\nContent-Type: "@ + mime + "\r\n\r\n"@) + content + bytes(
        "\r\n--"@ + BOUNDARY@ + "--"@,
    )
}

/// The bytes of a text.
pub open spec fn bytes(s: Seq<char>) -> Seq<u8> {
    vstd::utf8::encode_utf8(s)
}

fn append(out: &mut Vec<u8>, s: &str)
    ensures
        final(out)@ == old(out)@ + bytes(s@),
{
    out.extend_from_slice(s.as_bytes());
}

/// The body of an upload of `content`, of the type `mime`, with its metadata in JSON.
pub fn multipart_body(metadata: &str, mime: Option<&str>, content: &[u8]) -> (r: Vec<u8>)
    ensures
        r@ == upload_body(
            metadata@,
            match mime {
                Some(m) => m@,
                None => "application/octet-stream"@,
            },
            content@,
        ),
{
    let mime = match mime {
        Some(m) => m,
        None => "application/octet-stream",
    };
    let mut head = "--".to_owned();
    head.push_str(BOUNDARY);
    head.push_str("\r\nContent-Type: application/json; charset=UTF-8\r\n\r\n");
    let mut middle = "\r\n--".to_owned();
    middle.push_str(BOUNDARY);
    middle.push_str("\r\nContent-Type: ");
    middle.push_str(mime);
    middle.push_str("\r\n\r\n");
    let mut tail = "\r\n--".to_owned();
    tail.push_str(BOUNDARY);
    tail.push_str("--");
    let mut body: Vec<u8> = Vec::new();
    append(&mut body, head.as_str());
    assert(body@ =~= bytes(head@));
    append(&mut body, metadata);
    append(&mut body, middle.as_str());
    body.extend_from_slice(content);
    append(&mut body, tail.as_str());
    body
}

/// The folders to walk (find or create) for an upload, and its name: Drive addresses folders by
/// ID, not path.
pub fn upload_steps<'a>(components: &Vec<&'a str>) -> (r: Result<
    (Vec<&'a str>, &'a str),
    IntegrationError,
>)
    ensures
        match r {
            Ok((dirs, name)) => components@.len() > 0 && dirs@.push(name) == components@,
            Err(e) => components@.len() == 0 && e@
                == crate::integrations::IntegrationErrorView::InvalidPath("empty path"@),
        },
{
    if components.len() == 0 {
        return Err(IntegrationError::InvalidPath("empty path".to_owned()));
    }
    let last: usize = components.len() - 1;
    let mut dirs: Vec<&'a str> = Vec::new();
    let mut i: usize = 0;
    while i < last
        invariant
            i <= last < components@.len(),
            dirs@ == components@.take(i as int),
        decreases last - i,
    {
        dirs.push(components[i]);
        assert(dirs@ =~= components@.take(i as int + 1));
        i += 1;
    }
    assert(dirs@.push(components@[last as int]) =~= components@);
    Ok((dirs, components[last]))
}

/// What is to be done next for an upload to a path.
#[derive(Debug)]
pub enum UploadStep {
    /// Look for the folder of this name in this one.
    Find { parent: String, name: String },
    /// Create it: there was none.
    Create { parent: String, name: String },
    /// Upload the file, under this name, to this folder.
    Upload { parent: String, name: String },
}

/// [`UploadStep`] with its texts as characters.
pub enum UploadStepView {
    Find { parent: Seq<char>, name: Seq<char> },
    Create { parent: Seq<char>, name: Seq<char> },
    Upload { parent: Seq<char>, name: Seq<char> },
}

impl View for UploadStep {
    type V = UploadStepView;

    open spec fn view(&self) -> UploadStepView {
        match self {
            UploadStep::Find { parent, name } => UploadStepView::Find {
                parent: parent@,
                name: name@,
            },
            UploadStep::Create { parent, name } => UploadStepView::Create {
                parent: parent@,
                name: name@,
            },
            UploadStep::Upload { parent, name } => UploadStepView::Upload {
                parent: parent@,
                name: name@,
            },
        }
    }
}

/// An upload to a path under way: each folder on it is found or, where there is none, created.
pub struct UploadAt<'a> {
    pub dirs: Vec<&'a str>,
    pub name: &'a str,
    /// The folder reached so far.
    pub parent: String,
    /// How many folders were reached.
    pub reached: usize,
    /// Whether the next one was looked for in vain.
    pub missing: bool,
}

impl<'a> UploadAt<'a> {
    pub open spec fn wf(&self) -> bool {
        &&& self.reached <= self.dirs@.len()
        &&& self.missing ==> self.reached < self.dirs@.len()
    }

    /// An upload to the path of these components, from a folder or the root.
    pub fn new(parent_id: Option<&str>, components: &Vec<&'a str>) -> (r: Result<
        Self,
        IntegrationError,
    >)
        ensures
            match r {
                Ok(u) => {
                    &&& u.wf()
                    &&& components@.len() > 0
                    &&& u.dirs@.push(u.name) == components@
                    &&& u.parent@ == match parent_id {
                        Some(p) => p@,
                        None => "root"@,
                    }
                    &&& u.reached == 0
                    &&& !u.missing
                },
                Err(e) => components@.len() == 0 && e@
                    == crate::integrations::IntegrationErrorView::InvalidPath("empty path"@),
            },
    {
        match upload_steps(components) {
            Ok((dirs, name)) => {
                let parent = match parent_id {
                    Some(p) => p.to_owned(),
                    None => "root".to_owned(),
                };
                Ok(UploadAt { dirs, name, parent, reached: 0, missing: false })
            },
            Err(e) => Err(e),
        }
    }

    /// What is to be done next.
    pub fn step(&self) -> (r: UploadStep)
        requires
            self.wf(),
        ensures
            r@ == (if self.reached == self.dirs@.len() {
                UploadStepView::Upload { parent: self.parent@, name: self.name@ }
            } else if self.missing {
                UploadStepView::Create {
                    parent: self.parent@,
                    name: self.dirs@[self.reached as int]@,
                }
            } else {
                UploadStepView::Find {
                    parent: self.parent@,
                    name: self.dirs@[self.reached as int]@,
                }
            }),
    {
        let parent = self.parent.clone();
        if self.reached >= self.dirs.len() {
            UploadStep::Upload { parent, name: self.name.to_owned() }
        } else if self.missing {
            UploadStep::Create { parent, name: self.dirs[self.reached].to_owned() }
        } else {
            UploadStep::Find { parent, name: self.dirs[self.reached].to_owned() }
        }
    }

    /// The folder that was looked for, or created, has this id, or there is none. One that was looked
    /// for in vain is created next.
    pub fn found(&mut self, id: Option<String>)
        requires
            old(self).wf(),
        ensures
            final(self).wf(),
            *final(self) == (if old(self).reached == old(self).dirs@.len() {
                *old(self)
            } else {
                match id {
                    Some(id) => UploadAt {
                        parent: id,
                        reached: (old(self).reached + 1) as usize,
                        missing: false,
                        ..*old(self)
                    },
                    None => UploadAt { missing: true, ..*old(self) },
                }
            }),
    {
        if self.reached >= self.dirs.len() {
            return;
        }
        match id {
            Some(id) => {
                self.parent = id;
                self.reached = self.reached + 1;
                self.missing = false;
            },
            None => {
                self.missing = true;
            },
        }
    }
}

/// The full relative path of an upload.
pub fn uploaded_path(components: &Vec<&str>) -> (r: String)
    ensures
        r@ == "/"@ + crate::text::join_with(crate::text::slice_texts(components@), "/"@),
{
    rooted(join(components, "/").as_str())
}

/// The quota that Drive tells.
pub fn quota(usage: &Option<String>, limit: &Option<String>, trash: &Option<String>) -> (r:
    StorageQuota)
    ensures
        r == (StorageQuota {
            used: size_of(*usage),
            total: number_of(*limit),
            trash: number_of(*trash),
        }),
{
    StorageQuota {
        used: match parsed(usage) {
            Some(n) => n,
            None => 0,
        },
        total: parsed(limit),
        trash: parsed(trash),
    }
}

/// What Drive tells of a file is what the file is taken for: the same id, name, kind and hash, the
/// size and the time that the texts tell, and the first of its parents. Only Drive's own type for
/// folders makes it a folder.
pub proof fn law_a_drive_file_is_what_drive_tells(f: DriveFile, path: Seq<char>, n: nat)
    requires
        n <= u64::MAX,
    ensures
        f.file(path).id == f.id@,
        f.file(path).name == f.name@,
        f.file(path).mime_type == Some(f.mime_type@),
        f.file(path).path == path,
        f.size matches Some(t) && t@ == crate::text::decimal(n) ==> f.file(path).size == n,
        f.size is None ==> f.file(path).size == 0,
        f.modified_time matches Some(t) ==> f.file(path).modified_at == (
        match crate::clock::rfc3339_value(t@) {
            Some((seconds, _)) => seconds,
            None => 0,
        }),
        f.modified_time is None ==> f.file(path).modified_at == 0,
        f.md5_checksum matches Some(h) ==> f.file(path).content_hash == Some(h@),
        f.md5_checksum is None ==> f.file(path).content_hash is None,
        f.parents matches Some(p) && p@.len() > 0 ==> f.file(path).parent_id == Some(
            f.parents->0@[0]@,
        ),
        f.parents is None || f.parents->0@.len() == 0 ==> f.file(path).parent_id is None,
        f.file(path).is_folder <==> f.mime_type@ == "application/vnd.google-apps.folder"@,
        !f.file(path).deleted,
{
    crate::text::law_numbers_read_back(n);
    assert(crate::text::is_number(crate::text::decimal(n), u64::MAX as nat));
    assert('0' <= crate::text::decimal(n)[0]);
}

/// Every changed file that is neither removed nor in the trash is looked at, each once and in
/// order, and no other.
pub proof fn law_live_changes_are_kept(before: Seq<Change>, c: Change, after: Seq<Change>)
    ensures
        live_files(before + after) == live_files(before) + live_files(after),
        c.removed == Some(true) || c.file is None || c.file->0.trashed == Some(true) ==> live_files(
            seq![c],
        ).len() == 0,
        c.removed != Some(true) && c.file is Some && c.file->0.trashed != Some(true) ==> live_files(
            seq![c],
        ) == seq![c.file->0],
    decreases before.len(),
{
    assert(seq![c].skip(1) =~= Seq::empty());
    assert(live_files(Seq::<Change>::empty()) =~= Seq::<DriveFile>::empty());
    assert(live_files(seq![c]) =~= (if is_live(c) {
        seq![c.file->0]
    } else {
        Seq::empty()
    }));
    if before.len() == 0 {
        assert(before + after =~= after);
        assert(live_files(before + after) =~= live_files(before) + live_files(after));
    } else {
        law_live_changes_are_kept(before.skip(1), c, after);
        assert((before + after).skip(1) =~= before.skip(1) + after);
        assert((before + after)[0] == before[0]);
        assert(live_files(before + after) =~= live_files(before) + live_files(after));
    }
}

/// Of the files whose paths were looked for, each that was found is told at the path that was
/// found for it, and none that was not.
pub proof fn law_found_files_are_told(files: Seq<DriveFile>, paths: Seq<Option<Seq<char>>>, n: int)
    requires
        0 <= n <= paths.len(),
    ensures
        found(files, paths, 0).len() == 0,
        n > 0 && paths[n - 1] is None ==> found(files, paths, n) == found(files, paths, n - 1),
        n > 0 && paths[n - 1] is Some ==> {
            &&& found(files, paths, n).len() == found(files, paths, n - 1).len() + 1
            &&& found(files, paths, n).drop_last() == found(files, paths, n - 1)
            &&& found(files, paths, n).last().id == files[n - 1].id@
            &&& found(files, paths, n).last().name == files[n - 1].name@
            &&& Some(found(files, paths, n).last().path) == paths[n - 1]
        },
{
    if n > 0 && paths[n - 1] is Some {
        assert(found(files, paths, n).drop_last() =~= found(files, paths, n - 1));
    }
}

/// An upload carries the description of the file and then its content, whole and unchanged.
pub proof fn law_an_upload_carries_the_content(
    metadata: Seq<char>,
    mime: Seq<char>,
    content: Seq<u8>,
)
    ensures
        exists|head: Seq<u8>, tail: Seq<u8>|
            {
                &&& upload_body(metadata, mime, content) == #[trigger] (head + content + tail)
                &&& tail == vstd::utf8::encode_utf8("\r\n--"@ + BOUNDARY@ + "--"@)
                &&& exists|start: Seq<u8>, between: Seq<u8>|
                    head == #[trigger] (start + vstd::utf8::encode_utf8(metadata) + between)
                        && between == vstd::utf8::encode_utf8(
                        "\r\n--"@ + BOUNDARY@ + "\r\nContent-Type: "@ + mime + "\r\n\r\n"@,
                    )
            },
{
    let start = bytes(
        "--"@ + BOUNDARY@ + "\r\nContent-Type: application/json; charset=UTF-8\r\n\r\n"@,
    );
    let between = bytes("\r\n--"@ + BOUNDARY@ + "\r\nContent-Type: "@ + mime + "\r\n\r\n"@);
    let head = start + vstd::utf8::encode_utf8(metadata) + between;
    let tail = bytes("\r\n--"@ + BOUNDARY@ + "--"@);
    assert(upload_body(metadata, mime, content) == head + content + tail);
}

/// A query's text escapes the quote and the backslash, and leaves every other character.
pub proof fn law_query_text_goes_by_character(a: Seq<char>, b: Seq<char>, c: char)
    ensures
        query_text(a + b) == query_text(a) + query_text(b),
        query_text(seq!['\'']) == seq!['\\', '\''],
        query_text(seq!['\\']) == seq!['\\', '\\'],
        c != '\'' && c != '\\' ==> query_text(seq![c]) == seq![c],
    decreases b.len(),
{
    assert(query_text(Seq::<char>::empty()) =~= Seq::<char>::empty());
    assert(seq!['\''].drop_last() =~= Seq::empty());
    assert(seq!['\\'].drop_last() =~= Seq::empty());
    assert(seq![c].drop_last() =~= Seq::empty());
    assert(query_text(seq!['\'']) =~= seq!['\\', '\'']);
    assert(query_text(seq!['\\']) =~= seq!['\\', '\\']);
    assert(query_text(seq![c]) =~= query_char(c));
    if b.len() == 0 {
        assert(a + b =~= a);
        assert(query_text(a + b) =~= query_text(a) + query_text(b));
    } else {
        assert((a + b).drop_last() =~= a + b.drop_last());
        law_query_text_goes_by_character(a, b.drop_last(), c);
        assert(query_text(a + b) =~= query_text(a) + query_text(b));
    }
}

/// A refusal is told apart by its status: the token has run out at 401, the rate is too high at
/// 429, the file is gone at 404; at 403 the answer tells whether the storage is full or the file is
/// not handed out.
pub proof fn law_refusals_are_told_apart(
    status: u16,
    retry_after: Option<Seq<char>>,
    body: Seq<char>,
)
    ensures
        error_of(401, retry_after, body) is TokenExpired,
        error_of(429, None, body) == crate::integrations::IntegrationErrorView::RateLimited(60),
        error_of(429, retry_after, body) is RateLimited,
        error_of(404, retry_after, body) is NotFound,
        crate::text::holds(body, "storageQuotaExceeded"@) ==> error_of(403, retry_after, body)
            is QuotaExceeded,
        !crate::text::holds(body, "storageQuotaExceeded"@) && (crate::text::holds(
            body,
            "fileNotDownloadable"@,
        ) || crate::text::holds(body, "cannotDownloadFile"@) || crate::text::holds(
            body,
            "cannotDownloadAbusiveFile"@,
        )) ==> error_of(403, retry_after, body) is NotDownloadable,
        status != 401 && status != 403 && status != 404 && status != 429 ==> error_of(
            status,
            retry_after,
            body,
        ) is Api,
{
}

/// A query for the entries of a folder, and for a folder by its name, asks for what is in that
/// folder and not in the trash, whatever its id or the name holds.
pub proof fn law_queries_ask_for_what_is_in_a_folder(folder: Seq<char>, name: Seq<char>)
    ensures
        children_query(folder) == "'"@ + query_text(folder) + "' in parents and trashed = false"@,
        folder_query(folder, name) == "name = '"@ + query_text(name) + "' and '"@ + query_text(
            folder,
        ) + "' in parents and mimeType = '"@ + "application/vnd.google-apps.folder"@
            + "' and trashed = false"@,
        folders_query() == "mimeType = '"@ + "application/vnd.google-apps.folder"@
            + "' and trashed = false"@,
        stays_quoted(query_text(folder)),
        stays_quoted(query_text(name)),
{
    law_escaped_text_stays_quoted(folder);
    law_escaped_text_stays_quoted(name);
}

/// A number that Drive tells as a text is that number; what is no number, or too large, is none.
pub proof fn law_numbers_are_told_as_text(text: String, n: nat)
    ensures
        text@ == crate::text::decimal(n) && n <= u64::MAX ==> number_of(Some(text)) == Some(
            n as u64,
        ) && size_of(Some(text)) == n,
        text@ == crate::text::decimal(n) && n > u64::MAX ==> number_of(Some(text)) is None
            && size_of(Some(text)) == 0,
        number_of(None) is None,
        size_of(None) == 0,
{
    crate::text::law_numbers_read_back(n);
    assert('0' <= crate::text::decimal(n)[0]);
    assert(crate::text::unsigned(crate::text::decimal(n)) == crate::text::decimal(n));
    assert(n <= u64::MAX ==> crate::text::is_number(crate::text::decimal(n), u64::MAX as nat));
}

/// The path of a changed file is looked for under its own name and from its own parents.
pub proof fn law_a_file_is_looked_for_from_its_parents(files: Seq<DriveFile>, i: int, k: int)
    requires
        0 <= i < files.len(),
    ensures
        wanted(files).len() == files.len(),
        wanted(files)[i].name == files[i].name@,
        files[i].parents is None ==> wanted(files)[i].parents.len() == 0,
        files[i].parents matches Some(p) ==> wanted(files)[i].parents.len() == p@.len() && (0 <= k
            < p@.len() ==> wanted(files)[i].parents[k] == p@[k]@),
{
}

} // verus!

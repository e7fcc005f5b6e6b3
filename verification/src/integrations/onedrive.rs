//! OneDrive integration: what is sent to the Microsoft Graph API, and what its answers mean.

use vstd::prelude::*;
use vstd::string::*;

use crate::clock::unix_seconds;
use crate::codec::url_encode;
use crate::integrations::http::{api_error, retry_after, status_line};
use crate::integrations::oauth::{is_success, OAuthConfig, OAuthProvider, OAuthToken};
use crate::integrations::paths::MAX_LIST_DEPTH;
use crate::integrations::walk::{insert, FolderInfo, Item, Pages, Search};
use crate::integrations::{
    refresh_grant, CloudFile, CloudFolder, CloudProvider, IntegrationError, ProviderType,
};
use crate::text::{
    decimal_u64, join_strings, quoted, same, split, to_chars, trim_end_char, without,
};

verus! {

pub const GRAPH_BASE: &'static str = "https://graph.microsoft.com/v1.0";

/// What is uploaded in one request, at most.
pub const SIMPLE_UPLOAD_LIMIT: usize = 4_194_304;

/// The bytes of an upload that go into one request of several.
pub const CHUNK_SIZE: usize = 10_485_760;

/// Each piece percent-encoded.
pub open spec fn encoded_pieces(pieces: Seq<Seq<char>>) -> Seq<Seq<char>> {
    pieces.map_values(|p: Seq<char>| crate::codec::percent_encoded(p))
}

/// A path with each segment percent-encoded.
pub open spec fn encoded_path(path: Seq<char>) -> Seq<char> {
    crate::text::join_with(encoded_pieces(crate::text::split_on(path, '/')), "/"@)
}

/// Percent-encode each segment of a `/`-separated relative path for Graph path addressing
/// (`items/{id}:/{path}:/content`); raw `#`, `?` or `%` in a name would otherwise truncate or
/// corrupt the URL. Missing intermediate folders in the path are created by Graph itself.
pub fn encode_path(path: &str) -> (r: String)
    ensures
        r@ == encoded_path(path@),
{
    let parts = split(path, '/');
    let ghost pieces = crate::text::slice_texts(parts@);
    let mut out: Vec<String> = Vec::new();
    let mut i: usize = 0;
    assert(crate::text::texts(out@) =~= encoded_pieces(pieces).take(0));
    while i < parts.len()
        invariant
            i <= parts@.len(),
            pieces == crate::text::slice_texts(parts@),
            crate::text::texts(out@) == encoded_pieces(pieces).take(i as int),
        decreases parts@.len() - i,
    {
        let ghost was = crate::text::texts(out@);
        let piece = url_encode(parts[i]);
        let ghost text = piece@;
        out.push(piece);
        assert(crate::text::texts(out@) =~= was.push(text));
        assert(encoded_pieces(pieces).take(i as int + 1) =~= was.push(text));
        i += 1;
    }
    assert(encoded_pieces(pieces).take(i as int) =~= encoded_pieces(pieces));
    join_strings(&out, "/")
}

/// OneDrive provider.
#[derive(Debug)]
pub struct OneDrive {
    pub config: OAuthConfig,
    pub token: Option<OAuthToken>,
    pub graph_base: String,
}

/// Where an item of the drive is: the item of an id, or the root.
pub open spec fn item_at(base: Seq<char>, id: Option<Seq<char>>) -> Seq<char> {
    match id {
        Some(id) => base + "/me/drive/items/"@ + id,
        None => base + "/me/drive/root"@,
    }
}

impl OneDrive {
    pub fn new(config: OAuthConfig) -> (r: Self)
        ensures
            r.config == config,
            r.token is None,
            r.graph_base@ == GRAPH_BASE@,
    {
        OneDrive { config, token: None, graph_base: GRAPH_BASE.to_owned() }
    }

    pub fn with_token(config: OAuthConfig, token: OAuthToken) -> (r: Self)
        ensures
            r.config == config,
            r.token == Some(token),
            r.graph_base@ == GRAPH_BASE@,
    {
        OneDrive { config, token: Some(token), graph_base: GRAPH_BASE.to_owned() }
    }

    /// Point the provider at a different Graph endpoint (tests, proxies).
    pub fn with_base_url(self, graph_base: &str) -> (r: Self)
        ensures
            r.config == self.config,
            r.token == self.token,
            r.graph_base@ == crate::text::trimmed_end(graph_base@, '/'),
    {
        OneDrive {
            config: self.config,
            token: self.token,
            graph_base: trim_end_char(graph_base, '/').to_owned(),
        }
    }

    /// The token that requests carry; without one the provider is not configured.
    pub fn access_token(&self) -> (r: Result<&str, IntegrationError>)
        ensures
            match self.token {
                Some(t) => r matches Ok(s) && s@ == t.access_token@,
                None => r == Err::<&str, IntegrationError>(IntegrationError::NotConfigured),
            },
    {
        match &self.token {
            Some(t) => Ok(t.access_token.as_str()),
            None => Err(IntegrationError::NotConfigured),
        }
    }

    /// The refresh token to ask for a new token with.
    pub fn refresh_grant(&self) -> (r: Result<&str, IntegrationError>)
        ensures
            crate::integrations::is_refresh_grant(r, self.token),
    {
        refresh_grant(&self.token)
    }

    /// Where an item is, or what `rest` says of it.
    pub fn item_url(&self, id: Option<&str>, rest: &str) -> (r: String)
        ensures
            r@ == item_at(self.graph_base@, crate::text::text_of_str(id)) + rest@,
    {
        let mut out = self.graph_base.clone();
        match id {
            Some(id) => {
                out.push_str("/me/drive/items/");
                out.push_str(id);
            },
            None => {
                out.push_str("/me/drive/root");
            },
        }
        out.push_str(rest);
        out
    }

    /// Where the entries of a folder are.
    pub fn children_url(&self, folder_id: Option<&str>) -> (r: String)
        ensures
            r@ == item_at(self.graph_base@, crate::text::text_of_str(folder_id)) + "/children"@,
    {
        self.item_url(folder_id, "/children")
    }

    /// Where a file `name` (which may lie in folders below) of a folder is uploaded, by what
    /// `action` says.
    pub fn upload_url(&self, parent_id: Option<&str>, name: &str, action: &str) -> (r: String)
        ensures
            r@ == item_at(self.graph_base@, crate::text::text_of_str(parent_id)) + (":/"@
                + encoded_path(name@) + ":/"@ + action@),
    {
        let mut rest = ":/".to_owned();
        rest.push_str(encode_path(name).as_str());
        rest.push_str(":/");
        rest.push_str(action);
        self.item_url(parent_id, rest.as_str())
    }

    /// Where all folders are found.
    pub fn folders_url(&self) -> (r: String)
        ensures
            r@ == self.graph_base@ + "/me/drive/root/search(q='')?$filter=folder ne null"@,
    {
        let mut out = self.graph_base.clone();
        out.push_str("/me/drive/root/search(q='')?$filter=folder ne null");
        out
    }

    /// Where the changes since `cursor` are; without one, where changes start from now.
    pub fn delta_url(&self, cursor: Option<&str>) -> (r: String)
        ensures
            r@ == (match cursor {
                Some(c) => c@,
                None => self.graph_base@ + "/me/drive/root/delta?token=latest"@,
            }),
    {
        match cursor {
            Some(c) => c.to_owned(),
            None => {
                let mut out = self.graph_base.clone();
                out.push_str("/me/drive/root/delta?token=latest");
                out
            },
        }
    }
}

impl CloudProvider for OneDrive {
    open spec fn kind(&self) -> ProviderType {
        ProviderType::OneDrive
    }

    open spec fn token(&self) -> Option<OAuthToken> {
        self.token
    }

    fn provider_type(&self) -> (r: ProviderType) {
        ProviderType::OneDrive
    }

    fn is_authenticated(&self) -> (r: bool) {
        self.token.is_some()
    }

    fn get_token(&self) -> (r: Option<&OAuthToken>) {
        match &self.token {
            Some(t) => Some(t),
            None => None,
        }
    }

    fn set_token(&mut self, token: OAuthToken) {
        self.token = Some(token);
    }
}

impl OAuthProvider for OneDrive {
    open spec fn config(&self) -> OAuthConfig {
        self.config
    }

    fn oauth_config(&self) -> (r: &OAuthConfig) {
        &self.config
    }

    fn oauth_config_mut(&mut self) -> (r: &mut OAuthConfig) {
        &mut self.config
    }
}

/// Where the walk down a folder starts: at the folder, or at the drive's root, which has no id
/// that could be met again.
pub fn walk_root(folder_id: Option<&str>) -> (r: Option<&str>)
    ensures
        crate::text::text_of_str(r) == (match crate::text::text_of_str(folder_id) {
            Some(id) => if id.len() == 0 {
                None
            } else {
                Some(id)
            },
            None => None,
        }),
{
    match folder_id {
        Some(id) => {
            if id.is_empty() {
                None
            } else {
                Some(id)
            }
        },
        None => None,
    }
}

/// How a listing goes on after a page: by its next link, unless there is none; a repeated link
/// would go on forever, so the listing fails rather than return a partial list (a partial list
/// makes sync re-upload everything it didn't see).
pub fn next_page(pages: &mut Pages, link: Option<String>) -> (r: Result<
    Option<String>,
    IntegrationError,
>)
    ensures
        ({
            let used = crate::text::texts(old(pages).used@);
            match crate::text::text_of(link) {
                None => r matches Ok(None) && *final(pages) == *old(pages),
                Some(t) => {
                    &&& crate::text::texts(final(pages).used@) == crate::integrations::walk::with(
                        used,
                        t,
                    )
                    &&& if used.contains(t) {
                        r matches Err(e) && e@ == crate::integrations::IntegrationErrorView::Api(
                            "Graph returned repeated nextLink "@ + crate::text::debug_text(t),
                        )
                    } else {
                        r matches Ok(Some(n)) && n@ == t
                    }
                },
            }
        }),
{
    match link {
        None => Ok(None),
        Some(t) => {
            if pages.follow(t.as_str()) {
                Ok(Some(t))
            } else {
                let mut out = "Graph returned repeated nextLink ".to_owned();
                out.push_str(quoted(t.as_str()).as_str());
                Err(IntegrationError::Api(out))
            }
        },
    }
}

/// How a delta query goes on after a page.
#[derive(Debug)]
pub enum DeltaNext {
    /// It is complete; the link is for next time.
    Done(String),
    /// The next page is at the link.
    Page(String),
}

/// How a delta query goes on after a page: a delta link ends it, a next link that is new goes on,
/// and anything else is an error.
pub fn next_delta(
    pages: &mut Pages,
    delta_link: Option<String>,
    next_link: Option<String>,
) -> (r: Result<DeltaNext, IntegrationError>)
    ensures
        ({
            let used = crate::text::texts(old(pages).used@);
            match (crate::text::text_of(delta_link), crate::text::text_of(next_link)) {
                (Some(done), _) => {
                    &&& r matches Ok(DeltaNext::Done(l)) && l@ == done
                    &&& *final(pages) == *old(pages)
                },
                (None, Some(t)) => {
                    &&& crate::text::texts(final(pages).used@) == crate::integrations::walk::with(
                        used,
                        t,
                    )
                    &&& if used.contains(t) {
                        r matches Err(e) && e@ == crate::integrations::IntegrationErrorView::Api(
                            "Graph returned repeated delta nextLink "@ + crate::text::debug_text(t),
                        )
                    } else {
                        r matches Ok(DeltaNext::Page(n)) && n@ == t
                    }
                },
                (None, None) => {
                    &&& r matches Err(e) && e@ == crate::integrations::IntegrationErrorView::Api(
                        "delta page with neither nextLink nor deltaLink"@,
                    )
                    &&& *final(pages) == *old(pages)
                },
            }
        }),
{
    match delta_link {
        Some(done) => Ok(DeltaNext::Done(done)),
        None => match next_link {
            Some(t) => {
                if pages.follow(t.as_str()) {
                    Ok(DeltaNext::Page(t))
                } else {
                    let mut out = "Graph returned repeated delta nextLink ".to_owned();
                    out.push_str(quoted(t.as_str()).as_str());
                    Err(IntegrationError::Api(out))
                }
            },
            None => Err(
                IntegrationError::Api("delta page with neither nextLink nor deltaLink".to_owned()),
            ),
        },
    }
}

/// The folder change paths are relative to: the whole drive, or a folder by item id.
#[derive(Debug)]
pub enum SyncRoot<'a> {
    Drive,
    Folder(&'a str),
}

impl<'a> SyncRoot<'a> {
    /// The folder that a configured id means.
    pub fn of(folder_id: Option<&'a str>) -> (r: Self)
        ensures
            match crate::text::text_of_str(folder_id) {
                None => r is Drive,
                Some(id) => if id.len() == 0 || id == "root"@ {
                    r is Drive
                } else {
                    r matches SyncRoot::Folder(f) && f@ == id
                },
            },
    {
        match folder_id {
            None => SyncRoot::Drive,
            Some(id) => {
                if id.is_empty() || same(id, "root") {
                    SyncRoot::Drive
                } else {
                    SyncRoot::Folder(id)
                }
            },
        }
    }

    /// The ids of the folder: none for the drive's root, which tells itself.
    pub fn ids(&self) -> (r: Vec<String>)
        ensures
            crate::text::texts(r@) == (match self {
                SyncRoot::Drive => Seq::empty(),
                SyncRoot::Folder(f) => seq![f@],
            }),
    {
        let mut out: Vec<String> = Vec::new();
        if let SyncRoot::Folder(f) = self {
            out.push((*f).to_owned());
        }
        assert(crate::text::texts(out@) =~= match self {
            SyncRoot::Drive => Seq::empty(),
            SyncRoot::Folder(f) => seq![f@],
        });
        out
    }

    /// Whether the whole drive is meant.
    pub fn is_drive(&self) -> (r: bool)
        ensures
            r == self is Drive,
    {
        match self {
            SyncRoot::Drive => true,
            SyncRoot::Folder(_) => false,
        }
    }
}

/// What a response that is no success means: 404 is permanent, 410 (only delta queries answer it)
/// asks to start anew; auth, rate limits and 5xx stay retryable.
pub open spec fn error_of(
    status: u16,
    retry_after: Option<Seq<char>>,
    body: Seq<char>,
) -> crate::integrations::IntegrationErrorView {
    if status == 401 {
        crate::integrations::IntegrationErrorView::TokenExpired
    } else if status == 429 {
        crate::integrations::IntegrationErrorView::RateLimited(
            crate::integrations::http::wait_of(retry_after),
        )
    } else if status == 404 {
        crate::integrations::IntegrationErrorView::NotFound("Item not found"@)
    } else if status == 410 {
        crate::integrations::IntegrationErrorView::ResyncRequired(body)
    } else if status == 507 {
        crate::integrations::IntegrationErrorView::QuotaExceeded
    } else if status == 409 {
        crate::integrations::IntegrationErrorView::Conflict(body)
    } else {
        crate::integrations::IntegrationErrorView::Api(
            crate::integrations::http::status_text(status) + ": "@ + body,
        )
    }
}

/// Map a non-success Graph response, its `Retry-After` header and its body to an error.
pub fn response_error(status: u16, retry: Option<&str>, body: &str) -> (r: IntegrationError)
    requires
        100 <= status <= 999,
    ensures
        r@ == error_of(status, crate::text::text_of_str(retry), body@),
{
    if status == 401 {
        IntegrationError::TokenExpired
    } else if status == 429 {
        IntegrationError::RateLimited { retry_after_secs: retry_after(retry) }
    } else if status == 404 {
        IntegrationError::NotFound("Item not found".to_owned())
    } else if status == 410 {
        IntegrationError::ResyncRequired(body.to_owned())
    } else if status == 507 {
        IntegrationError::QuotaExceeded
    } else if status == 409 {
        IntegrationError::Conflict(body.to_owned())
    } else {
        api_error(status, body)
    }
}

/// OneDrive item (file or folder).
#[derive(Debug)]
pub struct DriveItem {
    pub id: String,
    /// Nothing on some deleted items in delta responses.
    pub name: String,
    pub size: u64,
    pub is_folder: bool,
    pub mime_type: Option<String>,
    pub sha256_hash: Option<String>,
    pub quick_xor_hash: Option<String>,
    pub last_modified: Option<String>,
    pub parent_id: Option<String>,
    pub parent_path: Option<String>,
    /// Whether this is the drive's root folder.
    pub is_root: bool,
    /// Whether a delta reports this as deleted.
    pub deleted: bool,
}

/// The path that an item's own parent reference tells.
pub open spec fn own_path(item: DriveItem) -> Seq<char> {
    (match item.parent_path {
        Some(p) => crate::text::removed(p@, "/drive/root:"@),
        None => Seq::empty(),
    }) + "/"@ + item.name@
}

impl DriveItem {
    /// The cloud file that this is, at a path.
    pub open spec fn file(self, path: Seq<char>) -> crate::integrations::CloudFileView {
        crate::integrations::CloudFileView {
            id: self.id@,
            name: self.name@,
            mime_type: crate::text::text_of(self.mime_type),
            size: self.size,
            modified_at: crate::clock::seconds_of(self.last_modified),
            content_hash: match self.sha256_hash {
                Some(h) => Some(h@),
                None => crate::text::text_of(self.quick_xor_hash),
            },
            parent_id: crate::text::text_of(self.parent_id),
            is_folder: self.is_folder,
            path,
            deleted: self.deleted,
        }
    }

    fn path(&self) -> (r: String)
        ensures
            r@ == own_path(*self),
    {
        proof {
            reveal_strlit("/drive/root:");
        }
        let mut out = match &self.parent_path {
            Some(p) => without(p.as_str(), "/drive/root:"),
            None => String::new(),
        };
        proof {
            if self.parent_path is None {
                assert(out@ =~= Seq::empty());
            }
        }
        out.push_str("/");
        out.push_str(self.name.as_str());
        out
    }

    pub fn to_cloud_file(&self) -> (r: CloudFile)
        ensures
            r@ == self.file(own_path(*self)),
            r.id@ == self.id@,
            r.name@ == self.name@,
            r.size == self.size,
            r.modified_at == (match self.last_modified {
                Some(t) => match crate::clock::rfc3339_value(t@) {
                    Some((seconds, _)) => seconds,
                    None => 0,
                },
                None => 0,
            }),
            self.sha256_hash matches Some(h) ==> r.content_hash matches Some(c) && c@ == h@,
            self.sha256_hash is None ==> match self.quick_xor_hash {
                Some(h) => r.content_hash matches Some(c) && c@ == h@,
                None => r.content_hash is None,
            },
            match self.mime_type {
                Some(m) => r.mime_type matches Some(c) && c@ == m@,
                None => r.mime_type is None,
            },
            match self.parent_id {
                Some(p) => r.parent_id matches Some(c) && c@ == p@,
                None => r.parent_id is None,
            },
            r.is_folder == self.is_folder,
            r.deleted == self.deleted,
            r.path@ == own_path(*self),
    {
        self.to_cloud_file_at(self.path())
    }

    /// As a [`CloudFile`] at `path` (relative to the sync folder).
    pub fn to_cloud_file_at(&self, path: String) -> (r: CloudFile)
        ensures
            r@ == self.file(path@),
            r.id@ == self.id@,
            r.name@ == self.name@,
            r.size == self.size,
            r.modified_at == (match self.last_modified {
                Some(t) => match crate::clock::rfc3339_value(t@) {
                    Some((seconds, _)) => seconds,
                    None => 0,
                },
                None => 0,
            }),
            self.sha256_hash matches Some(h) ==> r.content_hash matches Some(c) && c@ == h@,
            self.sha256_hash is None ==> match self.quick_xor_hash {
                Some(h) => r.content_hash matches Some(c) && c@ == h@,
                None => r.content_hash is None,
            },
            match self.mime_type {
                Some(m) => r.mime_type matches Some(c) && c@ == m@,
                None => r.mime_type is None,
            },
            match self.parent_id {
                Some(p) => r.parent_id matches Some(c) && c@ == p@,
                None => r.parent_id is None,
            },
            r.is_folder == self.is_folder,
            r.deleted == self.deleted,
            r.path@ == path@,
    {
        CloudFile {
            id: self.id.clone(),
            name: self.name.clone(),
            mime_type: self.mime_type.clone(),
            size: self.size,
            modified_at: unix_seconds(&self.last_modified),
            content_hash: match &self.sha256_hash {
                Some(h) => Some(h.clone()),
                None => self.quick_xor_hash.clone(),
            },
            parent_id: self.parent_id.clone(),
            is_folder: self.is_folder,
            path,
            deleted: self.deleted,
        }
    }

    pub fn to_cloud_folder(&self) -> (r: CloudFolder)
        ensures
            r@ == (crate::integrations::CloudFolderView {
                id: self.id@,
                name: self.name@,
                path: own_path(*self),
                parent_id: crate::text::text_of(self.parent_id),
            }),
    {
        CloudFolder {
            id: self.id.clone(),
            name: self.name.clone(),
            path: self.path(),
            parent_id: self.parent_id.clone(),
        }
    }

    /// The parent, if the item tells it.
    pub open spec fn parent_ids(self) -> Seq<Seq<char>> {
        match self.parent_id {
            Some(p) => seq![p@],
            None => Seq::empty(),
        }
    }

    fn parents(&self) -> (r: Vec<String>)
        ensures
            crate::text::texts(r@) == self.parent_ids(),
    {
        let mut out: Vec<String> = Vec::new();
        if let Some(p) = &self.parent_id {
            out.push(p.clone());
        }
        assert(crate::text::texts(out@) =~= self.parent_ids());
        out
    }

    /// What finding paths needs to know about this folder.
    pub fn to_folder_info(&self) -> (r: FolderInfo)
        ensures
            r@ == (crate::integrations::walk::FolderView {
                name: self.name@,
                parents: self.parent_ids(),
                is_drive_root: self.is_root,
            }),
    {
        FolderInfo {
            name: self.name.clone(),
            parents: self.parents(),
            is_drive_root: self.is_root,
        }
    }

    /// This as an item whose path is wanted.
    pub fn to_item(&self) -> (r: Item)
        ensures
            r@ == (crate::integrations::walk::ItemView {
                name: self.name@,
                parents: self.parent_ids(),
            }),
    {
        Item { name: self.name.clone(), parents: self.parents() }
    }
}

/// The ids of items.
pub open spec fn ids_of(items: Seq<DriveItem>) -> Seq<Seq<char>> {
    items.map_values(|i: DriveItem| i.id@)
}

/// What occurs in `ids`, once each, in the order of the first occurrences.
pub open spec fn distinct(ids: Seq<Seq<char>>) -> Seq<Seq<char>>
    decreases ids.len(),
{
    if ids.len() == 0 {
        Seq::empty()
    } else {
        crate::integrations::walk::with(distinct(ids.drop_last()), ids.last())
    }
}

/// What occurs is in the list of what occurs, and nothing else.
proof fn lemma_distinct(ids: Seq<Seq<char>>, id: Seq<char>)
    ensures
        distinct(ids).contains(id) == ids.contains(id),
    decreases ids.len(),
{
    if ids.len() > 0 {
        let rest = ids.drop_last();
        lemma_distinct(rest, id);
        let d = distinct(rest);
        let last = ids.last();
        assert(ids.contains(id) == (rest.contains(id) || id == last)) by {
            assert(ids[ids.len() - 1] == last);
            if rest.contains(id) {
                let i = choose|i: int| 0 <= i < rest.len() && rest[i] == id;
                assert(ids[i] == id);
            }
            if ids.contains(id) && id != last {
                let i = choose|i: int| 0 <= i < ids.len() && ids[i] == id;
                assert(rest[i] == id);
            }
        }
        if !d.contains(last) {
            assert(d.push(last).contains(id) == (d.contains(id) || id == last)) by {
                assert(d.push(last)[d.len() as int] == last);
                if d.contains(id) {
                    let i = choose|i: int| 0 <= i < d.len() && d[i] == id;
                    assert(d.push(last)[i] == id);
                }
            }
        }
    }
}

/// The last state of each item of a delta, in the order in which they first occur: where it is in
/// `items`.
pub fn latest(items: &Vec<DriveItem>) -> (r: Vec<usize>)
    ensures
        ({
            let ids = ids_of(items@);
            &&& r@.len() == distinct(ids).len()
            &&& forall|k: int|
                0 <= k < r@.len() ==> {
                    &&& (#[trigger] r@[k]) < ids.len()
                    &&& ids[r@[k] as int] == distinct(ids)[k]
                    &&& forall|j: int| r@[k] < j < ids.len() ==> ids[j] != distinct(ids)[k]
                }
        }),
{
    let ghost ids = ids_of(items@);
    let mut out: Vec<usize> = Vec::new();
    let mut i: usize = 0;
    assert(ids.take(0) =~= Seq::empty());
    while i < items.len()
        invariant
            i <= items@.len(),
            ids == ids_of(items@),
            out@.len() == distinct(ids.take(i as int)).len(),
            forall|k: int|
                0 <= k < out@.len() ==> {
                    &&& (#[trigger] out@[k]) < i
                    &&& ids[out@[k] as int] == distinct(ids.take(i as int))[k]
                    &&& forall|j: int|
                        out@[k] < j < i ==> ids[j] != distinct(ids.take(i as int))[k]
                },
        decreases items@.len() - i,
    {
        let id = items[i].id.as_str();
        let ghost seen = distinct(ids.take(i as int));
        let ghost now = distinct(ids.take(i as int + 1));
        assert(ids.take(i as int + 1).drop_last() =~= ids.take(i as int));
        assert(ids.take(i as int + 1).last() == id@);
        let mut k: usize = 0;
        while k < out.len() && !same(items[out[k]].id.as_str(), id)
            invariant
                k <= out@.len(),
                i < items@.len(),
                ids == ids_of(items@),
                seen == distinct(ids.take(i as int)),
                out@.len() == seen.len(),
                id@ == ids[i as int],
                forall|m: int|
                    0 <= m < out@.len() ==> (#[trigger] out@[m]) < i && ids[out@[m] as int]
                        == seen[m],
                forall|m: int| 0 <= m < k ==> #[trigger] seen[m] != id@,
            decreases out@.len() - k,
        {
            assert(ids[out@[k as int] as int] == items@[out@[k as int] as int].id@);
            k += 1;
        }
        let ghost was = out@;
        if k < out.len() {
            assert(seen[k as int] == id@);
            assert(seen.contains(id@));
            proof {
                lemma_distinct_once(ids.take(i as int));
            }
            out.set(k, i);
        } else {
            assert(!seen.contains(id@));
            out.push(i);
            proof {
                lemma_distinct(ids.take(i as int), id@);
                assert forall|m: int| 0 <= m < was.len() implies #[trigger] seen[m] != id@ by {
                    assert(seen.contains(seen[m]));
                }
            }
        }
        assert forall|m: int| 0 <= m < out@.len() implies {
            &&& (#[trigger] out@[m]) < i + 1
            &&& ids[out@[m] as int] == now[m]
            &&& forall|j: int| out@[m] < j < i + 1 ==> ids[j] != now[m]
        } by {
            if m < was.len() && m != k {
                assert(out@[m] == was[m]);
                assert(now[m] == seen[m]);
                assert(seen[m] != id@);
            }
        }
        i += 1;
    }
    assert(ids.take(i as int) =~= ids);
    out
}

/// Nothing is twice in the list of what occurs.
proof fn lemma_distinct_once(ids: Seq<Seq<char>>)
    ensures
        forall|i: int, j: int|
            0 <= i < j < distinct(ids).len() ==> #[trigger] distinct(ids)[i]
                != #[trigger] distinct(ids)[j],
    decreases ids.len(),
{
    if ids.len() > 0 {
        lemma_distinct_once(ids.drop_last());
        let d = distinct(ids.drop_last());
        let e = distinct(ids);
        assert forall|i: int, j: int| 0 <= i < j < e.len() implies #[trigger] e[i]
            != #[trigger] e[j] by {
            assert(e[i] == d[i]);
            if j < d.len() {
                assert(e[j] == d[j]);
            } else {
                assert(d.contains(d[i]));
            }
        }
    }
}

/// Whether a change is about the sync folder itself.
pub fn is_sync_folder(item: &DriveItem, root: &SyncRoot) -> (r: bool)
    ensures
        r == about_the_root(*item, *root),
{
    item.is_root || match root {
        SyncRoot::Drive => false,
        SyncRoot::Folder(f) => same(f, item.id.as_str()),
    }
}

/// Whether a change is about the sync folder itself.
pub open spec fn about_the_root(item: DriveItem, root: SyncRoot) -> bool {
    item.is_root || (root matches SyncRoot::Folder(f) && f@ == item.id@)
}

/// Where an id occurs last.
pub open spec fn last_at(ids: Seq<Seq<char>>, id: Seq<char>) -> int
    decreases ids.len(),
{
    if ids.len() == 0 {
        -1
    } else if ids.last() == id {
        ids.len() - 1
    } else {
        last_at(ids.drop_last(), id)
    }
}

proof fn lemma_last_at(ids: Seq<Seq<char>>, id: Seq<char>, i: int)
    requires
        0 <= i < ids.len(),
        ids[i] == id,
        forall|j: int| i < j < ids.len() ==> ids[j] != id,
    ensures
        last_at(ids, id) == i,
    decreases ids.len(),
{
    if i < ids.len() - 1 {
        lemma_last_at(ids.drop_last(), id, i);
    }
}

/// The last state of each item of a delta, in the order in which the items first occur.
pub open spec fn states(all: Seq<DriveItem>) -> Seq<DriveItem> {
    distinct(ids_of(all)).map_values(|id: Seq<char>| all[last_at(ids_of(all), id)])
}

/// What is not about the sync folder itself.
pub open spec fn below(items: Seq<DriveItem>, root: SyncRoot) -> Seq<DriveItem>
    decreases items.len(),
{
    if items.len() == 0 {
        Seq::empty()
    } else if about_the_root(items.last(), root) {
        below(items.drop_last(), root)
    } else {
        below(items.drop_last(), root).push(items.last())
    }
}

/// What a delta tells of folders.
pub open spec fn told(items: Seq<DriveItem>) -> Map<
    Seq<char>,
    Option<crate::integrations::walk::FolderView>,
>
    decreases items.len(),
{
    if items.len() == 0 {
        Map::empty()
    } else if items.last().is_folder || items.last().is_root {
        let f = items.last();
        told(items.drop_last()).insert(
            f.id@,
            Some(
                crate::integrations::walk::FolderView {
                    name: f.name@,
                    parents: f.parent_ids(),
                    is_drive_root: f.is_root,
                },
            ),
        )
    } else {
        told(items.drop_last())
    }
}

/// Items as those whose paths are wanted.
pub open spec fn wanted(items: Seq<DriveItem>) -> Seq<crate::integrations::walk::ItemView> {
    items.map_values(
        |i: DriveItem|
            crate::integrations::walk::ItemView { name: i.name@, parents: i.parent_ids() },
    )
}

/// What has changed since a cursor. Without one nothing has: the answer only tells the cursor to start
/// at.
pub fn changed_since(cursor: Option<&str>, items: Vec<DriveItem>) -> (r: Vec<DriveItem>)
    ensures
        match cursor {
            Some(_) => r == items,
            None => r@ == Seq::<DriveItem>::empty(),
        },
{
    match cursor {
        Some(_) => items,
        None => Vec::new(),
    }
}

/// The changes that a delta is about, whose paths are to be found.
pub struct Delta {
    /// All that the delta holds.
    pub all: Vec<DriveItem>,
    /// Which of it are changes below the sync folder.
    pub chosen: Vec<usize>,
    /// The same, as items whose paths are wanted.
    pub items: Vec<Item>,
    pub search: Search,
    /// The paths that were found.
    pub placed: Vec<Option<String>>,
}

impl Delta {
    /// The changes whose paths are wanted.
    pub open spec fn changes(&self) -> Seq<DriveItem> {
        self.chosen@.map_values(|i: usize| self.all@[i as int])
    }

    pub open spec fn wf(&self) -> bool {
        &&& self.search.wf()
        &&& self.items@.len() == self.chosen@.len()
        &&& self.placed@.len() <= self.items@.len()
        &&& crate::integrations::walk::item_views(self.items@) == wanted(self.changes())
        &&& forall|i: int| 0 <= i < self.chosen@.len() ==> #[trigger] self.chosen@[i]
            < self.all@.len()
    }

    /// The last state of each item that a delta tells of, but for the sync folder itself; what it
    /// tells of folders need not be looked up.
    pub fn new(all: Vec<DriveItem>, root: &SyncRoot) -> (r: Self)
        ensures
            r.wf(),
            r.all == all,
            r.changes() == below(states(all@), *root),
            r.placed@.len() == 0,
            r.search@.known == told(states(all@)),
            r.search@.roots == (match root {
                SyncRoot::Drive => Seq::empty(),
                SyncRoot::Folder(f) => seq![f@],
            }),
            r.search@.drive == root is Drive,
            r.search.paths() == crate::integrations::walk::Paths::empty(),
    {
        let last = latest(&all);
        let ghost states = states(all@);
        let mut search = Search::new(root.ids(), root.is_drive());
        let mut chosen: Vec<usize> = Vec::new();
        let mut items: Vec<Item> = Vec::new();
        let ghost roots = search@.roots;
        assert(states.take(0) =~= Seq::empty());
        assert(chosen@.map_values(|i: usize| all@[i as int]) =~= Seq::empty());
        assert(crate::integrations::walk::item_views(items@) =~= Seq::empty());
        assert(wanted(Seq::empty()) =~= Seq::empty());
        let mut k: usize = 0;
        while k < last.len()
            invariant
                k <= last@.len(),
                last@.len() == states.len(),
                states == self::states(all@),
                ({
                    let ids = ids_of(all@);
                    &&& last@.len() == distinct(ids).len()
                    &&& forall|k: int|
                        0 <= k < last@.len() ==> {
                            &&& (#[trigger] last@[k]) < ids.len()
                            &&& ids[last@[k] as int] == distinct(ids)[k]
                            &&& forall|j: int|
                                last@[k] < j < ids.len() ==> ids[j] != distinct(ids)[k]
                        }
                }),
                search.wf(),
                search@.known == told(states.take(k as int)),
                search@.roots == roots,
                search@.drive == root is Drive,
                search.paths() == crate::integrations::walk::Paths::empty(),
                chosen@.map_values(|i: usize| all@[i as int]) == below(
                    states.take(k as int),
                    *root,
                ),
                items@.len() == chosen@.len(),
                crate::integrations::walk::item_views(items@) == wanted(
                    below(states.take(k as int), *root),
                ),
                forall|i: int| 0 <= i < chosen@.len() ==> #[trigger] chosen@[i] < all@.len(),
            decreases last@.len() - k,
        {
            let i: usize = last[k];
            let item = &all[i];
            let ghost before = states.take(k as int);
            proof {
                let ids = ids_of(all@);
                lemma_last_at(ids, distinct(ids)[k as int], i as int);
                assert(states[k as int] == all@[i as int]);
                assert(states.take(k as int + 1).drop_last() =~= before);
                assert(states.take(k as int + 1).last() == *item);
            }
            if item.is_folder || item.is_root {
                search.learn(item.id.clone(), Some(item.to_folder_info()));
            }
            if !is_sync_folder(item, root) {
                let ghost was = chosen@;
                let ghost had = items@;
                chosen.push(i);
                items.push(item.to_item());
                proof {
                    let to = |i: usize| all@[i as int];
                    assert(chosen@.map_values(to) =~= was.map_values(to).push(*item));
                    let b = below(before, *root);
                    assert(crate::integrations::walk::item_views(items@)
                        =~= crate::integrations::walk::item_views(had).push(items@.last()@));
                    assert(wanted(b.push(*item)) =~= wanted(b).push(items@.last()@));
                }
            }
            k += 1;
        }
        assert(states.take(k as int) =~= states);
        Delta { all, chosen, items, search, placed: Vec::new() }
    }

    /// Find paths as far as is known: the folder that has to be looked up before it can go on, if
    /// there is one.
    pub fn find(&mut self) -> (r: Option<String>)
        requires
            old(self).wf(),
        ensures
            final(self).wf(),
            final(self).all == old(self).all,
            final(self).chosen == old(self).chosen,
            final(self).items == old(self).items,
            final(self).search@ == old(self).search@,
            ({
                let rest = wanted(old(self).changes()).skip(old(self).placed@.len() as int);
                let now = old(self).search@.place(rest, old(self).search.paths());
                &&& crate::integrations::walk::option_texts(final(self).placed@)
                    == crate::integrations::walk::option_texts(old(self).placed@) + now.paths
                &&& final(self).search.paths() == now.after
                &&& crate::text::text_of(r) == now.need
                &&& now.need matches Some(id) ==> !old(self).search@.known.contains_key(id)
            }),
            r is None ==> final(self).placed@.len() == final(self).chosen@.len(),
    {
        self.search.place(&self.items, &mut self.placed)
    }

    /// A folder was looked up: what there is of it.
    pub fn learn(&mut self, id: String, folder: Option<&DriveItem>)
        requires
            old(self).wf(),
        ensures
            final(self).wf(),
            final(self).all == old(self).all,
            final(self).chosen == old(self).chosen,
            final(self).items == old(self).items,
            final(self).placed == old(self).placed,
            final(self).search.paths() == old(self).search.paths(),
            final(self).search@ == (crate::integrations::walk::SearchView {
                known: old(self).search@.known.insert(
                    id@,
                    match folder {
                        Some(f) => Some(
                            crate::integrations::walk::FolderView {
                                name: f.name@,
                                parents: f.parent_ids(),
                                is_drive_root: f.is_root,
                            },
                        ),
                        None => None,
                    },
                ),
                ..old(self).search@
            }),
    {
        let info = match folder {
            Some(f) => Some(f.to_folder_info()),
            None => None,
        };
        self.search.learn(id, info);
    }

    /// The changes whose paths were found, in the order in which they are applied.
    pub fn files(&self) -> (r: Vec<CloudFile>)
        requires
            self.wf(),
        ensures
            crate::integrations::file_views(r@) == arrangement(
                found(
                    self.changes(),
                    crate::integrations::walk::option_texts(self.placed@),
                    self.placed@.len() as int,
                ),
            ),
    {
        let mut out: Vec<CloudFile> = Vec::new();
        let ghost changes = self.changes();
        let ghost paths = crate::integrations::walk::option_texts(self.placed@);
        let mut k: usize = 0;
        assert(crate::integrations::file_views(out@) =~= Seq::empty());
        while k < self.placed.len()
            invariant
                self.wf(),
                k <= self.placed@.len(),
                changes == self.changes(),
                paths == crate::integrations::walk::option_texts(self.placed@),
                crate::integrations::file_views(out@) == found(changes, paths, k as int),
            decreases self.placed@.len() - k,
        {
            assert(paths[k as int] == crate::text::text_of(self.placed@[k as int]));
            if let Some(path) = &self.placed[k] {
                if !too_deep(path.as_str()) {
                    let ghost was = crate::integrations::file_views(out@);
                    let item = &self.all[self.chosen[k]];
                    assert(changes[k as int] == *item);
                    out.push(item.to_cloud_file_at(path.clone()));
                    assert(crate::integrations::file_views(out@) =~= was.push(item.file(path@)));
                }
            }
            k += 1;
        }
        arrange(&out)
    }
}

/// The first `n` changes as files at their paths, but for those without one and those that lie
/// too deep.
pub open spec fn found(
    changes: Seq<DriveItem>,
    paths: Seq<Option<Seq<char>>>,
    n: int,
) -> Seq<crate::integrations::CloudFileView>
    decreases n,
{
    if n <= 0 {
        Seq::empty()
    } else {
        match paths[n - 1] {
            Some(p) => if occurrences(p, '/') > MAX_LIST_DEPTH {
                found(changes, paths, n - 1)
            } else {
                found(changes, paths, n - 1).push(changes[n - 1].file(p))
            },
            None => found(changes, paths, n - 1),
        }
    }
}

/// How often `c` occurs in `s`.
pub open spec fn occurrences(s: Seq<char>, c: char) -> nat
    decreases s.len(),
{
    if s.len() == 0 {
        0
    } else {
        occurrences(s.drop_last(), c) + (if s.last() == c {
            1nat
        } else {
            0nat
        })
    }
}

/// Whether a path lies deeper than folders are followed.
pub fn too_deep(path: &str) -> (r: bool)
    ensures
        r == (occurrences(path@, '/') > MAX_LIST_DEPTH),
{
    let cs = to_chars(path);
    let mut n: usize = 0;
    let mut i: usize = 0;
    assert(path@.take(0) =~= Seq::empty());
    while i < cs.len()
        invariant
            i <= cs@.len(),
            cs@ == path@,
            n <= i,
            n == occurrences(path@.take(i as int), '/'),
        decreases cs@.len() - i,
    {
        assert(path@.take(i as int + 1).drop_last() =~= path@.take(i as int));
        if cs[i] == '/' {
            n += 1;
        }
        i += 1;
    }
    assert(path@.take(i as int) =~= path@);
    n > MAX_LIST_DEPTH
}

/// Of `files`, in order, the deletions or the others, the first of each path; and none of a path
/// in `seen`.
pub open spec fn kept(
    files: Seq<crate::integrations::CloudFileView>,
    deleted: bool,
    seen: Seq<Seq<char>>,
) -> (Seq<crate::integrations::CloudFileView>, Seq<Seq<char>>)
    decreases files.len(),
{
    if files.len() == 0 {
        (Seq::empty(), seen)
    } else {
        let (before, paths) = kept(files.drop_last(), deleted, seen);
        let f = files.last();
        if f.deleted == deleted && !paths.contains(f.path) {
            (before.push(f), paths.push(f.path))
        } else {
            (before, paths)
        }
    }
}

/// Changes in the order in which they are applied: deletions come first, so that applying them in
/// order never removes a path that a live item re-creates; the first of several live items of a
/// path is taken, and a deletion at a path a live item holds is superseded by it.
pub open spec fn arrangement(files: Seq<crate::integrations::CloudFileView>) -> Seq<crate::integrations::CloudFileView> {
    let (live, paths) = kept(files, false, Seq::empty());
    kept(files, true, paths).0 + live
}

fn keep(files: &Vec<CloudFile>, deleted: bool, seen: &mut Vec<String>) -> (r: Vec<CloudFile>)
    ensures
        (crate::integrations::file_views(r@), crate::text::texts(final(seen)@)) == kept(
            crate::integrations::file_views(files@),
            deleted,
            crate::text::texts(old(seen)@),
        ),
{
    let ghost first = crate::text::texts(seen@);
    let ghost all = crate::integrations::file_views(files@);
    let mut out: Vec<CloudFile> = Vec::new();
    let mut i: usize = 0;
    assert(all.take(0) =~= Seq::empty());
    assert(crate::integrations::file_views(out@) =~= Seq::empty());
    while i < files.len()
        invariant
            i <= files@.len(),
            all == crate::integrations::file_views(files@),
            (crate::integrations::file_views(out@), crate::text::texts(seen@)) == kept(
                all.take(i as int),
                deleted,
                first,
            ),
        decreases files@.len() - i,
    {
        assert(all.take(i as int + 1).drop_last() =~= all.take(i as int));
        assert(all.take(i as int + 1).last() == files@[i as int]@);
        if files[i].deleted == deleted {
            if insert(seen, files[i].path.as_str()) {
                let ghost was = crate::integrations::file_views(out@);
                out.push(files[i].clone());
                assert(crate::integrations::file_views(out@) =~= was.push(files@[i as int]@));
            }
        }
        i += 1;
    }
    assert(all.take(i as int) =~= all);
    out
}

/// Changes in the order in which they are applied.
pub fn arrange(files: &Vec<CloudFile>) -> (r: Vec<CloudFile>)
    ensures
        crate::integrations::file_views(r@) == arrangement(crate::integrations::file_views(files@)),
{
    let mut seen: Vec<String> = Vec::new();
    assert(crate::text::texts(seen@) =~= Seq::empty());
    let live = keep(files, false, &mut seen);
    let mut out = keep(files, true, &mut seen);
    let ghost deletions = crate::integrations::file_views(out@);
    let ghost rest = crate::integrations::file_views(live@);
    let mut i: usize = 0;
    assert(deletions + rest.take(0) =~= deletions);
    while i < live.len()
        invariant
            i <= live@.len(),
            rest == crate::integrations::file_views(live@),
            crate::integrations::file_views(out@) == deletions + rest.take(i as int),
        decreases live@.len() - i,
    {
        let ghost was = crate::integrations::file_views(out@);
        out.push(live[i].clone());
        assert(crate::integrations::file_views(out@) =~= was.push(live@[i as int]@));
        assert(crate::integrations::file_views(out@) =~= deletions + rest.take(i as int + 1));
        i += 1;
    }
    assert(rest.take(i as int) =~= rest);
    out
}

/// What is kept has paths that were not there before, each once, and they are added.
proof fn lemma_kept(files: Seq<crate::integrations::CloudFileView>, deleted: bool, seen: Seq<Seq<char>>)
    ensures
        ({
            let (k, paths) = kept(files, deleted, seen);
            &&& paths.len() == seen.len() + k.len()
            &&& seen.is_prefix_of(paths)
            &&& forall|i: int|
                0 <= i < k.len() ==> (#[trigger] k[i]).deleted == deleted && paths[seen.len() + i]
                    == k[i].path && !seen.contains(k[i].path)
            &&& forall|i: int, j: int|
                0 <= i < j < k.len() ==> (#[trigger] k[i]).path != (#[trigger] k[j]).path
            &&& forall|i: int|
                0 <= i < files.len() && (#[trigger] files[i]).deleted == deleted ==> paths.contains(
                    files[i].path,
                )
        }),
    decreases files.len(),
{
    if files.len() > 0 {
        let rest = files.drop_last();
        lemma_kept(rest, deleted, seen);
        let (b, ps) = kept(rest, deleted, seen);
        let (k, paths) = kept(files, deleted, seen);
        let f = files.last();
        assert forall|i: int| 0 <= i < k.len() implies (#[trigger] k[i]).deleted == deleted
            && paths[seen.len() + i] == k[i].path && !seen.contains(k[i].path) by {
            if i < b.len() {
                assert(k[i] == b[i]);
            } else if seen.contains(f.path) {
                let m = choose|m: int| 0 <= m < seen.len() && seen[m] == f.path;
                assert(ps[m] == f.path);
            }
        }
        assert forall|i: int, j: int| 0 <= i < j < k.len() implies (#[trigger] k[i]).path != (
        #[trigger] k[j]).path by {
            assert(k[i] == b[i]);
            if j < b.len() {
                assert(k[j] == b[j]);
            } else {
                assert(ps[seen.len() + i] == b[i].path);
                assert(ps.contains(b[i].path));
            }
        }
        assert forall|p: Seq<char>| ps.contains(p) implies #[trigger] paths.contains(p) by {
            let m = choose|m: int| 0 <= m < ps.len() && ps[m] == p;
            assert(paths[m] == p);
        }
        assert forall|i: int|
            0 <= i < files.len() && (#[trigger] files[i]).deleted == deleted implies paths.contains(
            files[i].path,
        ) by {
            if i < rest.len() {
                assert(rest[i] == files[i]);
            } else if !ps.contains(f.path) {
                assert(paths[ps.len() as int] == f.path);
            }
        }
    }
}

/// Changes are applied so that nothing is lost: each path occurs once, every deletion comes before
/// every live item, and the path of every live item stays live.
pub proof fn law_changes_are_applied_in_order(files: Seq<crate::integrations::CloudFileView>)
    ensures
        ({
            let a = arrangement(files);
            &&& forall|i: int, j: int|
                0 <= i < j < a.len() ==> {
                    &&& (#[trigger] a[i]).path != (#[trigger] a[j]).path
                    &&& a[j].deleted ==> a[i].deleted
                }
            &&& forall|i: int|
                0 <= i < files.len() && !(#[trigger] files[i]).deleted ==> exists|j: int|
                    0 <= j < a.len() && (#[trigger] a[j]).path == files[i].path && !a[j].deleted
        }),
{
    let (live, paths) = kept(files, false, Seq::empty());
    lemma_kept(files, false, Seq::empty());
    lemma_kept(files, true, paths);
    let dels = kept(files, true, paths).0;
    let a = arrangement(files);
    assert forall|i: int, j: int| 0 <= i < j < a.len() implies {
        &&& (#[trigger] a[i]).path != (#[trigger] a[j]).path
        &&& a[j].deleted ==> a[i].deleted
    } by {
        if j < dels.len() {
            assert(a[i] == dels[i] && a[j] == dels[j]);
        } else if i < dels.len() {
            assert(a[i] == dels[i] && a[j] == live[j - dels.len()]);
            assert(paths[j - dels.len()] == a[j].path);
            assert(paths.contains(a[j].path));
        } else {
            assert(a[i] == live[i - dels.len()] && a[j] == live[j - dels.len()]);
        }
    }
    assert forall|i: int| 0 <= i < files.len() && !(#[trigger] files[i]).deleted implies exists|
        j: int,
    |
        0 <= j < a.len() && (#[trigger] a[j]).path == files[i].path && !a[j].deleted by {
        assert(paths.contains(files[i].path));
        let m = choose|m: int| 0 <= m < paths.len() && paths[m] == files[i].path;
        assert(paths.len() == live.len());
        assert(live[m].path == paths[m]);
        assert(a[dels.len() + m] == live[m]);
    }
}

/// Where a download goes on: OneDrive redirects to the content's own URL, or answers itself.
pub fn redirected<'a>(status: u16, location: Option<&'a str>) -> (r: Result<
    Option<&'a str>,
    IntegrationError,
>)
    ensures
        if 300 <= status < 400 {
            match crate::text::text_of_str(location) {
                Some(l) => r matches Ok(Some(u)) && u@ == l,
                None => r matches Err(e) && e@ == crate::integrations::IntegrationErrorView::Api(
                    "Missing redirect location"@,
                ),
            }
        } else {
            r == Ok::<Option<&str>, IntegrationError>(None)
        },
{
    if 300 <= status && status < 400 {
        match location {
            Some(l) => Ok(Some(l)),
            None => Err(IntegrationError::Api("Missing redirect location".to_owned())),
        }
    } else {
        Ok(None)
    }
}

/// Where the chunk of an upload that starts at `offset` ends.
pub open spec fn chunk_end_of(offset: int, total: int) -> int {
    if total - offset > CHUNK_SIZE {
        offset + CHUNK_SIZE
    } else {
        total
    }
}

/// Where the chunk of an upload that starts at `offset` ends.
pub fn chunk_end(offset: usize, total: usize) -> (r: usize)
    requires
        offset < total,
    ensures
        r == chunk_end_of(offset as int, total as int),
        offset < r <= total,
{
    if total - offset > CHUNK_SIZE {
        offset + CHUNK_SIZE
    } else {
        total
    }
}

/// The `Content-Range` of a chunk.
pub fn content_range(offset: usize, end: usize, total: usize) -> (r: String)
    requires
        offset < end <= total,
    ensures
        r@ == "bytes "@ + crate::text::decimal(offset as nat) + "-"@ + crate::text::decimal(
            (end - 1) as nat,
        ) + "/"@ + crate::text::decimal(total as nat),
{
    let mut out = "bytes ".to_owned();
    out.push_str(decimal_u64(offset as u64).as_str());
    out.push_str("-");
    out.push_str(decimal_u64((end - 1) as u64).as_str());
    out.push_str("/");
    out.push_str(decimal_u64(total as u64).as_str());
    out
}

/// How an upload goes on after a chunk.
#[derive(Debug)]
pub enum ChunkStep {
    /// The chunk was accepted; the next one starts where it ended.
    Continue,
    /// The upload is complete, and the answer tells the item.
    Complete,
    Failed(IntegrationError),
}

/// How an upload goes on after the chunk at `offset` was answered.
pub fn chunk_step(status: u16, body: &str, offset: usize) -> (r: ChunkStep)
    requires
        100 <= status <= 999,
    ensures
        if status == 202 {
            r is Continue
        } else if crate::integrations::oauth::success(status) {
            r is Complete
        } else {
            r matches ChunkStep::Failed(e) && e@ == crate::integrations::IntegrationErrorView::Api(
                "Upload failed at offset "@ + crate::text::decimal(offset as nat) + ": "@
                    + crate::integrations::http::status_text(status) + " - "@ + body@,
            )
        },
{
    if status == 202 {
        ChunkStep::Continue
    } else if is_success(status) {
        ChunkStep::Complete
    } else {
        let mut out = "Upload failed at offset ".to_owned();
        out.push_str(decimal_u64(offset as u64).as_str());
        out.push_str(": ");
        out.push_str(status_line(status).as_str());
        out.push_str(" - ");
        out.push_str(body);
        ChunkStep::Failed(IntegrationError::Api(out))
    }
}

/// What an upload came to: the item that the last answer told; without one, an error.
pub fn uploaded(item: Option<DriveItem>) -> (r: Result<CloudFile, IntegrationError>)
    ensures
        match item {
            Some(i) => r matches Ok(f) && f@ == i.file(own_path(i)),
            None => r matches Err(e) && e@ == crate::integrations::IntegrationErrorView::Api(
                "Upload completed but no response received"@,
            ),
        },
{
    match item {
        Some(i) => Ok(i.to_cloud_file()),
        None => Err(
            IntegrationError::Api("Upload completed but no response received".to_owned()),
        ),
    }
}

/// The chunks of an upload from `offset` on: where each starts and ends.
pub open spec fn chunks(offset: int, total: int) -> Seq<(int, int)>
    decreases total - offset,
{
    if offset >= total {
        Seq::empty()
    } else {
        seq![(offset, chunk_end_of(offset, total))] + chunks(chunk_end_of(offset, total), total)
    }
}

/// The chunks of an upload are the whole content: each starts where the one before ended, the last
/// ends where the content does, and none is empty or larger than a chunk may be.
pub proof fn law_chunks_cover_the_content(offset: int, total: int)
    requires
        0 <= offset < total,
    ensures
        ({
            let c = chunks(offset, total);
            &&& c.len() > 0
            &&& c[0].0 == offset
            &&& c[c.len() - 1].1 == total
            &&& forall|i: int|
                0 <= i < c.len() ==> (#[trigger] c[i]).0 < c[i].1 && c[i].1 - c[i].0 <= CHUNK_SIZE
            &&& forall|i: int, j: int|
                0 <= i && j == i + 1 && j < c.len() ==> (#[trigger] c[i]).1 == (#[trigger] c[j]).0
        }),
    decreases total - offset,
{
    let end = chunk_end_of(offset, total);
    let c = chunks(offset, total);
    let rest = chunks(end, total);
    assert(c =~= seq![(offset, end)] + rest);
    if end < total {
        law_chunks_cover_the_content(end, total);
        assert forall|i: int| 0 <= i < c.len() implies (#[trigger] c[i]).0 < c[i].1 && c[i].1
            - c[i].0 <= CHUNK_SIZE by {
            if i > 0 {
                assert(c[i] == rest[i - 1]);
            }
        }
        assert forall|i: int, j: int| 0 <= i && j == i + 1 && j < c.len() implies (
        #[trigger] c[i]).1 == (#[trigger] c[j]).0 by {
            assert(c[j] == rest[j - 1]);
            if i > 0 {
                assert(c[i] == rest[i - 1]);
            }
        }
        assert(c[c.len() - 1] == rest[rest.len() - 1]);
    } else {
        assert(rest =~= Seq::empty());
    }
}

/// A delta that reports an item more than once counts with its last report: each item has one
/// state, and that is the last one reported.
pub proof fn law_the_last_report_of_an_item_counts(all: Seq<DriveItem>)
    ensures
        forall|i: int|
            0 <= i < all.len() && (forall|j: int|
                i < j < all.len() ==> (#[trigger] all[j]).id@ != all[i].id@) ==> states(
                all,
            ).contains(#[trigger] all[i]),
        forall|k: int|
            0 <= k < states(all).len() ==> exists|i: int|
                {
                    &&& 0 <= i < all.len()
                    &&& all[i] == #[trigger] states(all)[k]
                    &&& forall|j: int| i < j < all.len() ==> (#[trigger] all[j]).id@ != all[i].id@
                },
        forall|k: int, m: int|
            0 <= k < m < states(all).len() ==> (#[trigger] states(all)[k]).id@ != (
            #[trigger] states(all)[m]).id@,
{
    let ids = ids_of(all);
    let d = distinct(ids);
    assert forall|i: int|
        0 <= i < all.len() && (forall|j: int|
            i < j < all.len() ==> (#[trigger] all[j]).id@ != all[i].id@) implies states(
        all,
    ).contains(#[trigger] all[i]) by {
        let id = all[i].id@;
        assert(ids[i] == id);
        assert(ids.contains(id));
        lemma_distinct(ids, id);
        let k = choose|k: int| 0 <= k < d.len() && d[k] == id;
        assert forall|j: int| i < j < ids.len() implies ids[j] != id by {
            assert(ids[j] == all[j].id@);
        }
        lemma_last_at(ids, id, i);
        assert(states(all)[k] == all[i]);
    }
    assert forall|k: int| 0 <= k < states(all).len() implies exists|i: int|
        {
            &&& 0 <= i < all.len()
            &&& all[i] == #[trigger] states(all)[k]
            &&& forall|j: int| i < j < all.len() ==> (#[trigger] all[j]).id@ != all[i].id@
        } by {
        lemma_state(all, k);
        let i = last_at(ids, d[k]);
        assert(all[i] == states(all)[k]);
    }
    assert forall|k: int, m: int| 0 <= k < m < states(all).len() implies (
    #[trigger] states(all)[k]).id@ != (#[trigger] states(all)[m]).id@ by {
        lemma_state(all, k);
        lemma_state(all, m);
        lemma_distinct_once(ids);
        assert(d[k] != d[m]);
    }
}

proof fn lemma_state(all: Seq<DriveItem>, k: int)
    requires
        0 <= k < states(all).len(),
    ensures
        ({
            let i = last_at(ids_of(all), distinct(ids_of(all))[k]);
            &&& 0 <= i < all.len()
            &&& states(all)[k] == all[i]
            &&& all[i].id@ == distinct(ids_of(all))[k]
            &&& forall|j: int| i < j < all.len() ==> (#[trigger] all[j]).id@ != all[i].id@
        }),
{
    let ids = ids_of(all);
    let id = distinct(ids)[k];
    assert(distinct(ids).contains(id));
    lemma_distinct(ids, id);
    lemma_last_at_found(ids, id);
    let i = last_at(ids, id);
    assert(ids[i] == all[i].id@);
    assert forall|j: int| i < j < all.len() implies (#[trigger] all[j]).id@ != all[i].id@ by {
        assert(ids[j] == all[j].id@);
    }
}

proof fn lemma_last_at_found(ids: Seq<Seq<char>>, id: Seq<char>)
    requires
        ids.contains(id),
    ensures
        0 <= last_at(ids, id) < ids.len(),
        ids[last_at(ids, id)] == id,
        forall|j: int| last_at(ids, id) < j < ids.len() ==> #[trigger] ids[j] != id,
    decreases ids.len(),
{
    if ids.last() != id {
        let i = choose|i: int| 0 <= i < ids.len() && ids[i] == id;
        assert(ids.drop_last()[i] == id);
        lemma_last_at_found(ids.drop_last(), id);
        let n = last_at(ids, id);
        assert(ids.drop_last()[n] == ids[n]);
        assert forall|j: int| n < j < ids.len() implies #[trigger] ids[j] != id by {
            if j < ids.len() - 1 {
                assert(ids.drop_last()[j] == ids[j]);
            }
        }
    }
}

/// Of the items of a delta all are changes but those about the drive's root and the sync folder
/// itself, in order.
pub proof fn law_all_but_the_root_is_a_change(items: Seq<DriveItem>, last: DriveItem, id: &str)
    ensures
        below(Seq::empty(), SyncRoot::Drive).len() == 0,
        below(Seq::empty(), SyncRoot::Folder(id)).len() == 0,
        below(items.push(last), SyncRoot::Drive) == (if last.is_root {
            below(items, SyncRoot::Drive)
        } else {
            below(items, SyncRoot::Drive).push(last)
        }),
        below(items.push(last), SyncRoot::Folder(id)) == (if last.is_root || last.id@ == id@ {
            below(items, SyncRoot::Folder(id))
        } else {
            below(items, SyncRoot::Folder(id)).push(last)
        }),
{
    assert(items.push(last).drop_last() =~= items);
}

/// A folder that a delta reports is known by its name and its parent from then on; a file tells
/// nothing of folders.
pub proof fn law_reported_folders_are_known(items: Seq<DriveItem>, last: DriveItem)
    ensures
        last.is_folder || last.is_root ==> {
            let m = told(items.push(last));
            &&& m.contains_key(last.id@)
            &&& m[last.id@] matches Some(f) && {
                &&& f.name == last.name@
                &&& f.is_drive_root == last.is_root
                &&& last.parent_id matches Some(p) ==> f.parents == seq![p@]
                &&& last.parent_id is None ==> f.parents.len() == 0
            }
            &&& m.remove(last.id@) == told(items).remove(last.id@)
        },
        !last.is_folder && !last.is_root ==> told(items.push(last)) == told(items),
{
    assert(items.push(last).drop_last() =~= items);
    if last.is_folder || last.is_root {
        assert(told(items.push(last)).remove(last.id@) =~= told(items).remove(last.id@));
    }
}

/// What OneDrive tells of an item is what the file is taken for; the stronger hash goes before the
/// quick one.
pub proof fn law_an_item_is_what_onedrive_tells(item: DriveItem, path: Seq<char>)
    ensures
        item.file(path).id == item.id@,
        item.file(path).name == item.name@,
        item.file(path).path == path,
        item.file(path).size == item.size,
        item.file(path).is_folder == item.is_folder,
        item.file(path).deleted == item.deleted,
        item.last_modified matches Some(t) ==> item.file(path).modified_at == (
        match crate::clock::rfc3339_value(t@) {
            Some((seconds, _)) => seconds,
            None => 0,
        }),
        item.last_modified is None ==> item.file(path).modified_at == 0,
        item.sha256_hash matches Some(h) ==> item.file(path).content_hash == Some(h@),
        item.sha256_hash is None ==> (item.quick_xor_hash matches Some(h) ==> item.file(
            path,
        ).content_hash == Some(h@)),
        item.sha256_hash is None && item.quick_xor_hash is None ==> item.file(path).content_hash
            is None,
        item.parent_id matches Some(p) ==> item.file(path).parent_id == Some(p@),
        item.parent_id is None ==> item.file(path).parent_id is None,
{
}

/// The path of an item is that of its folder, without the mark of the drive's root, and its name.
pub proof fn law_an_item_lies_in_its_folder(item: DriveItem, dir: Seq<char>)
    requires
        !crate::text::holds(dir, "/drive/root:"@),
    ensures
        item.parent_path matches Some(p) && (p@ == "/drive/root:"@ + dir || p@ == dir) ==> own_path(
            item,
        ) == dir + "/"@ + item.name@,
        item.parent_path is None ==> own_path(item) == "/"@ + item.name@,
{
    reveal_strlit("/drive/root:");
    crate::text::lemma_removed_prefix("/drive/root:"@, dir);
    crate::text::lemma_nothing_removed(dir, "/drive/root:"@);
    if item.parent_path is None {
        assert(own_path(item) =~= "/"@ + item.name@);
    }
}

/// A path is encoded name by name: what separates the names stays, and nothing in a name does.
pub proof fn law_a_path_is_encoded_by_name(dir: Seq<char>, name: Seq<char>)
    requires
        !name.contains('/'),
    ensures
        encoded_path(name) == crate::codec::percent_encoded(name),
        encoded_path(dir + seq!['/'] + name) == encoded_path(dir) + "/"@
            + crate::codec::percent_encoded(name),
{
    crate::text::lemma_split_whole(name, '/');
    crate::text::lemma_split_last(dir, name, '/');
    crate::text::lemma_split_nonempty(dir, '/');
    let pieces = crate::text::split_on(dir, '/');
    let one = encoded_pieces(seq![name]);
    assert(one =~= seq![crate::codec::percent_encoded(name)]);
    let all = encoded_pieces(pieces.push(name));
    assert(all =~= encoded_pieces(pieces).push(crate::codec::percent_encoded(name)));
    assert(all.drop_last() =~= encoded_pieces(pieces));
    assert(all.len() >= 2);
}

/// How often a character occurs adds up over the parts of a text.
pub proof fn law_occurrences_add_up(a: Seq<char>, b: Seq<char>, c: char, other: char)
    ensures
        occurrences(a + b, c) == occurrences(a, c) + occurrences(b, c),
        occurrences(seq![c], c) == 1,
        other != c ==> occurrences(seq![other], c) == 0,
        occurrences(Seq::empty(), c) == 0,
    decreases b.len(),
{
    assert(seq![c].drop_last() =~= Seq::empty());
    assert(seq![other].drop_last() =~= Seq::empty());
    assert(occurrences(Seq::empty(), c) == 0);
    if b.len() == 0 {
        assert(a + b =~= a);
    } else {
        assert((a + b).drop_last() =~= a + b.drop_last());
        law_occurrences_add_up(a, b.drop_last(), c, other);
    }
}

/// Of the changes whose paths were looked for, each that was found no deeper than can be listed is
/// told at its path, and no other.
pub proof fn law_found_changes_are_told(
    changes: Seq<DriveItem>,
    paths: Seq<Option<Seq<char>>>,
    n: int,
)
    requires
        0 < n <= paths.len(),
    ensures
        found(changes, paths, 0).len() == 0,
        paths[n - 1] is None ==> found(changes, paths, n) == found(changes, paths, n - 1),
        paths[n - 1] matches Some(p) && occurrences(p, '/') > 32 ==> found(changes, paths, n)
            == found(changes, paths, n - 1),
        paths[n - 1] matches Some(p) && occurrences(p, '/') <= 32 ==> {
            &&& found(changes, paths, n).len() == found(changes, paths, n - 1).len() + 1
            &&& found(changes, paths, n).drop_last() == found(changes, paths, n - 1)
            &&& found(changes, paths, n).last().id == changes[n - 1].id@
            &&& found(changes, paths, n).last().deleted == changes[n - 1].deleted
            &&& Some(found(changes, paths, n).last().path) == paths[n - 1]
        },
{
    if let Some(p) = paths[n - 1] {
        if occurrences(p, '/') <= 32 {
            assert(found(changes, paths, n).drop_last() =~= found(changes, paths, n - 1));
        }
    }
}

/// Nothing is lost when changes are put in order: a path that is only deleted is told as deleted,
/// and everything told is one of the changes.
pub proof fn law_deletions_are_not_lost(files: Seq<crate::integrations::CloudFileView>)
    ensures
        ({
            let a = arrangement(files);
            &&& forall|i: int|
                0 <= i < files.len() && (#[trigger] files[i]).deleted && (forall|j: int|
                    0 <= j < files.len() && (#[trigger] files[j]).path == files[i].path
                        ==> files[j].deleted) ==> exists|j: int|
                    0 <= j < a.len() && (#[trigger] a[j]).path == files[i].path && a[j].deleted
            &&& forall|j: int| 0 <= j < a.len() ==> files.contains(#[trigger] a[j])
        }),
{
    let (live, paths) = kept(files, false, Seq::empty());
    let dels = kept(files, true, paths).0;
    let gone = kept(files, true, paths).1;
    let a = arrangement(files);
    lemma_kept(files, false, Seq::empty());
    lemma_kept(files, true, paths);
    lemma_kept_are_files(files, false, Seq::empty());
    lemma_kept_are_files(files, true, paths);
    assert forall|j: int| 0 <= j < a.len() implies files.contains(#[trigger] a[j]) by {
        if j < dels.len() {
            assert(a[j] == dels[j]);
        } else {
            assert(a[j] == live[j - dels.len()]);
        }
    }
    assert forall|i: int|
        0 <= i < files.len() && (#[trigger] files[i]).deleted && (forall|j: int|
            0 <= j < files.len() && (#[trigger] files[j]).path == files[i].path
                ==> files[j].deleted) implies exists|j: int|
        0 <= j < a.len() && (#[trigger] a[j]).path == files[i].path && a[j].deleted by {
        let path = files[i].path;
        assert(gone.contains(path));
        let m = choose|m: int| 0 <= m < gone.len() && gone[m] == path;
        if m < paths.len() {
            assert(paths[m] == gone[m]);
            assert(live[m].path == path);
            assert(files.contains(live[m]));
            let j = choose|j: int| 0 <= j < files.len() && files[j] == live[m];
            assert(files[j].path == path);
            assert(files[j].deleted);
        } else {
            assert(dels[m - paths.len()].path == path);
            assert(a[m - paths.len()] == dels[m - paths.len()]);
        }
    }
}

proof fn lemma_kept_are_files(
    files: Seq<crate::integrations::CloudFileView>,
    deleted: bool,
    seen: Seq<Seq<char>>,
)
    ensures
        forall|k: int|
            0 <= k < kept(files, deleted, seen).0.len() ==> files.contains(
                #[trigger] kept(files, deleted, seen).0[k],
            ),
    decreases files.len(),
{
    if files.len() > 0 {
        let rest = files.drop_last();
        lemma_kept_are_files(rest, deleted, seen);
        let before = kept(rest, deleted, seen).0;
        let all = kept(files, deleted, seen).0;
        assert(files[files.len() - 1] == files.last());
        assert forall|k: int| 0 <= k < all.len() implies files.contains(#[trigger] all[k]) by {
            if k < before.len() {
                assert(all[k] == before[k]);
                let i = choose|i: int| 0 <= i < rest.len() && rest[i] == before[k];
                assert(files[i] == all[k]);
            }
        }
    }
}

/// Every chunk but the last is of the full size, which is a multiple of the 327,680 bytes that the
/// service asks for.
pub proof fn law_chunks_are_of_full_size(offset: int, total: int)
    requires
        0 <= offset < total,
    ensures
        CHUNK_SIZE == 10_485_760,
        CHUNK_SIZE % 327_680 == 0,
        forall|i: int|
            0 <= i < chunks(offset, total).len() - 1 ==> (#[trigger] chunks(offset, total)[i]).1
                - chunks(offset, total)[i].0 == 10_485_760,
        total - offset <= 10_485_760 ==> chunks(offset, total) == seq![(offset, total)],
    decreases total - offset,
{
    let end = chunk_end_of(offset, total);
    let c = chunks(offset, total);
    let rest = chunks(end, total);
    assert(c =~= seq![(offset, end)] + rest);
    if end < total {
        law_chunks_are_of_full_size(end, total);
        assert forall|i: int| 0 <= i < c.len() - 1 implies (#[trigger] c[i]).1 - c[i].0
            == 10_485_760 by {
            if i > 0 {
                assert(c[i] == rest[i - 1]);
            }
        }
    } else {
        assert(rest =~= Seq::empty());
        assert(c =~= seq![(offset, total)]);
    }
}

/// A refusal is told apart by its status.
pub proof fn law_refusals_are_told_apart(
    status: u16,
    retry_after: Option<Seq<char>>,
    body: Seq<char>,
)
    ensures
        error_of(401, retry_after, body) is TokenExpired,
        error_of(429, None, body) == crate::integrations::IntegrationErrorView::RateLimited(60),
        error_of(429, retry_after, body) is RateLimited,
        error_of(404, retry_after, body) is NotFound,
        error_of(410, retry_after, body)
            == crate::integrations::IntegrationErrorView::ResyncRequired(body),
        error_of(507, retry_after, body) is QuotaExceeded,
        error_of(409, retry_after, body) == crate::integrations::IntegrationErrorView::Conflict(
            body,
        ),
        status != 401 && status != 404 && status != 409 && status != 410 && status != 429 && status
            != 507 ==> error_of(status, retry_after, body) is Api,
{
}

/// The path of a changed item is looked for under its own name and from its own parent.
pub proof fn law_an_item_is_looked_for_from_its_parent(items: Seq<DriveItem>, i: int)
    requires
        0 <= i < items.len(),
    ensures
        wanted(items).len() == items.len(),
        wanted(items)[i].name == items[i].name@,
        items[i].parent_id matches Some(p) ==> wanted(items)[i].parents == seq![p@],
        items[i].parent_id is None ==> wanted(items)[i].parents.len() == 0,
{
}

/// An item is addressed by its id, and the drive's root by being the root.
pub proof fn law_items_are_addressed_by_id(base: Seq<char>, id: Seq<char>)
    ensures
        item_at(base, Some(id)) == base + "/me/drive/items/"@ + id,
        item_at(base, None) == base + "/me/drive/root"@,
{
}

} // verus!

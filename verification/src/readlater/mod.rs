//! Read-it-later integrations: Pocket, Instapaper and Wallabag. Omnivore (shut down November 2024)
//! is kept only as a discontinued marker so existing database rows still load.

use vstd::prelude::*;
use vstd::string::*;

use crate::clock::Timestamp;
use crate::integrations::walk::copy;
use crate::text::decimal_u64;

pub mod convert;
pub mod instapaper;
pub mod manager;
pub mod oauth1;
pub mod order;
pub mod pocket;
pub mod rows;
pub mod wallabag;

verus! {

#[derive(Debug)]
pub enum ReadLaterError {
    ProviderNotFound(String),
    ArticleNotFound(String),
    AuthRequired(String),
    OAuth(String),
    Api(String),
    RateLimited(u64),
    Conversion(String),
    Database(String),
    Network(String),
    Io(String),
    Json(String),
    Discontinued(String),
}

/// [`ReadLaterError`] with its texts as characters.
pub enum ReadLaterErrorView {
    ProviderNotFound(Seq<char>),
    ArticleNotFound(Seq<char>),
    AuthRequired(Seq<char>),
    OAuth(Seq<char>),
    Api(Seq<char>),
    RateLimited(u64),
    Conversion(Seq<char>),
    Database(Seq<char>),
    Network(Seq<char>),
    Io(Seq<char>),
    Json(Seq<char>),
    Discontinued(Seq<char>),
}

impl View for ReadLaterError {
    type V = ReadLaterErrorView;

    open spec fn view(&self) -> ReadLaterErrorView {
        match self {
            ReadLaterError::ProviderNotFound(s) => ReadLaterErrorView::ProviderNotFound(s@),
            ReadLaterError::ArticleNotFound(s) => ReadLaterErrorView::ArticleNotFound(s@),
            ReadLaterError::AuthRequired(s) => ReadLaterErrorView::AuthRequired(s@),
            ReadLaterError::OAuth(s) => ReadLaterErrorView::OAuth(s@),
            ReadLaterError::Api(s) => ReadLaterErrorView::Api(s@),
            ReadLaterError::RateLimited(n) => ReadLaterErrorView::RateLimited(*n),
            ReadLaterError::Conversion(s) => ReadLaterErrorView::Conversion(s@),
            ReadLaterError::Database(s) => ReadLaterErrorView::Database(s@),
            ReadLaterError::Network(s) => ReadLaterErrorView::Network(s@),
            ReadLaterError::Io(s) => ReadLaterErrorView::Io(s@),
            ReadLaterError::Json(s) => ReadLaterErrorView::Json(s@),
            ReadLaterError::Discontinued(s) => ReadLaterErrorView::Discontinued(s@),
        }
    }
}

/// An error in words.
pub open spec fn error_text(e: ReadLaterErrorView) -> Seq<char> {
    match e {
        ReadLaterErrorView::ProviderNotFound(s) => "Provider not found: "@ + s,
        ReadLaterErrorView::ArticleNotFound(s) => "Article not found: "@ + s,
        ReadLaterErrorView::AuthRequired(s) => "Authentication required for "@ + s,
        ReadLaterErrorView::OAuth(s) => "OAuth error: "@ + s,
        ReadLaterErrorView::Api(s) => "API error: "@ + s,
        ReadLaterErrorView::RateLimited(n) => "Rate limited, retry after "@ + crate::text::decimal(
            n as nat,
        ) + " seconds"@,
        ReadLaterErrorView::Conversion(s) => "Conversion error: "@ + s,
        ReadLaterErrorView::Database(s) => "Database error: "@ + s,
        ReadLaterErrorView::Network(s) => "Network error: "@ + s,
        ReadLaterErrorView::Io(s) => "IO error: "@ + s,
        ReadLaterErrorView::Json(s) => "JSON error: "@ + s,
        ReadLaterErrorView::Discontinued(s) => s,
    }
}

/// `prefix` and `s`.
pub fn prefixed(prefix: &str, s: &str) -> (r: String)
    ensures
        r@ == prefix@ + s@,
{
    let mut out = prefix.to_owned();
    out.push_str(s);
    out
}

impl ReadLaterError {
    /// The error in words.
    pub fn message(&self) -> (r: String)
        ensures
            r@ == error_text(self@),
    {
        match self {
            ReadLaterError::ProviderNotFound(s) => prefixed("Provider not found: ", s.as_str()),
            ReadLaterError::ArticleNotFound(s) => prefixed("Article not found: ", s.as_str()),
            ReadLaterError::AuthRequired(s) => prefixed("Authentication required for ", s.as_str()),
            ReadLaterError::OAuth(s) => prefixed("OAuth error: ", s.as_str()),
            ReadLaterError::Api(s) => prefixed("API error: ", s.as_str()),
            ReadLaterError::RateLimited(n) => {
                let mut out = prefixed("Rate limited, retry after ", decimal_u64(*n).as_str());
                out.push_str(" seconds");
                out
            },
            ReadLaterError::Conversion(s) => prefixed("Conversion error: ", s.as_str()),
            ReadLaterError::Database(s) => prefixed("Database error: ", s.as_str()),
            ReadLaterError::Network(s) => prefixed("Network error: ", s.as_str()),
            ReadLaterError::Io(s) => prefixed("IO error: ", s.as_str()),
            ReadLaterError::Json(s) => prefixed("JSON error: ", s.as_str()),
            ReadLaterError::Discontinued(s) => s.clone(),
        }
    }
}

/// Message for anything that tries to use the Omnivore provider.
pub const OMNIVORE_DISCONTINUED: &'static str =
    "Omnivore shut down in November 2024 and is no longer supported; delete this account";

#[derive(Debug, Clone, Copy, PartialEq, Eq, Structural)]
pub enum ReadLaterProvider {
    Pocket,
    Instapaper,
    Wallabag,
    /// Discontinued (the service shut down in November 2024). Retained only so accounts and
    /// articles saved before the removal still load; every operation on it fails with
    /// [`ReadLaterError::Discontinued`].
    Omnivore,
}

/// A provider's name.
pub open spec fn provider_name(p: ReadLaterProvider) -> Seq<char> {
    match p {
        ReadLaterProvider::Pocket => "pocket"@,
        ReadLaterProvider::Instapaper => "instapaper"@,
        ReadLaterProvider::Wallabag => "wallabag"@,
        ReadLaterProvider::Omnivore => "omnivore"@,
    }
}

impl ReadLaterProvider {
    /// The provider's name.
    pub fn name(self) -> (r: &'static str)
        ensures
            r@ == provider_name(self),
    {
        match self {
            ReadLaterProvider::Pocket => "pocket",
            ReadLaterProvider::Instapaper => "instapaper",
            ReadLaterProvider::Wallabag => "wallabag",
            ReadLaterProvider::Omnivore => "omnivore",
        }
    }

    /// The provider of a name.
    pub fn named(name: &str) -> (r: Option<ReadLaterProvider>)
        ensures
            match r {
                Some(p) => name@ == provider_name(p),
                None => forall|p: ReadLaterProvider| name@ != #[trigger] provider_name(p),
            },
            forall|p: ReadLaterProvider| name@ == #[trigger] provider_name(p) ==> r == Some(p),
    {
        proof {
            reveal_strlit("pocket");
            reveal_strlit("instapaper");
            reveal_strlit("wallabag");
            reveal_strlit("omnivore");
            assert("wallabag"@[0] == 'w');
            assert("omnivore"@[0] == 'o');
        }
        if crate::text::same(name, "pocket") {
            Some(ReadLaterProvider::Pocket)
        } else if crate::text::same(name, "instapaper") {
            Some(ReadLaterProvider::Instapaper)
        } else if crate::text::same(name, "wallabag") {
            Some(ReadLaterProvider::Wallabag)
        } else if crate::text::same(name, "omnivore") {
            Some(ReadLaterProvider::Omnivore)
        } else {
            None
        }
    }
}

#[derive(Debug, Clone, Copy, PartialEq, Eq, Structural)]
pub enum ReadStatus {
    Unread,
    InProgress,
    Read,
    Archived,
}

impl Default for ReadStatus {
    fn default() -> (r: Self)
        ensures
            r == ReadStatus::Unread,
    {
        ReadStatus::Unread
    }
}

/// A status's name.
pub open spec fn status_name(s: ReadStatus) -> Seq<char> {
    match s {
        ReadStatus::Unread => "unread"@,
        ReadStatus::InProgress => "inprogress"@,
        ReadStatus::Read => "read"@,
        ReadStatus::Archived => "archived"@,
    }
}

impl ReadStatus {
    /// The status's name.
    pub fn name(self) -> (r: &'static str)
        ensures
            r@ == status_name(self),
    {
        match self {
            ReadStatus::Unread => "unread",
            ReadStatus::InProgress => "inprogress",
            ReadStatus::Read => "read",
            ReadStatus::Archived => "archived",
        }
    }

    /// The status of a name.
    pub fn named(name: &str) -> (r: Option<ReadStatus>)
        ensures
            match r {
                Some(s) => name@ == status_name(s),
                None => forall|s: ReadStatus| name@ != #[trigger] status_name(s),
            },
            forall|s: ReadStatus| name@ == #[trigger] status_name(s) ==> r == Some(s),
    {
        proof {
            reveal_strlit("unread");
            reveal_strlit("inprogress");
            reveal_strlit("read");
            reveal_strlit("archived");
            assert("unread"@.len() == 6);
            assert("inprogress"@.len() == 10);
            assert("read"@.len() == 4);
            assert("archived"@.len() == 8);
        }
        if crate::text::same(name, "unread") {
            Some(ReadStatus::Unread)
        } else if crate::text::same(name, "inprogress") {
            Some(ReadStatus::InProgress)
        } else if crate::text::same(name, "read") {
            Some(ReadStatus::Read)
        } else if crate::text::same(name, "archived") {
            Some(ReadStatus::Archived)
        } else {
            None
        }
    }
}

#[derive(Debug, Clone, Copy, PartialEq, Eq, Structural)]
pub enum ArticleFormat {
    Html,
    Epub,
    Pdf,
}

impl Default for ArticleFormat {
    fn default() -> (r: Self)
        ensures
            r == ArticleFormat::Html,
    {
        ArticleFormat::Html
    }
}

#[derive(Debug)]
pub struct Article {
    pub id: String,
    pub provider: ReadLaterProvider,
    pub provider_id: String,
    pub url: String,
    pub title: String,
    pub excerpt: Option<String>,
    pub author: Option<String>,
    pub word_count: Option<u32>,
    pub reading_time_minutes: Option<u32>,
    pub tags: Vec<String>,
    pub status: ReadStatus,
    pub favorite: bool,
    pub added_at: Timestamp,
    pub updated_at: Timestamp,
    pub read_at: Option<Timestamp>,
    pub content: Option<String>,
    pub image_url: Option<String>,
    pub document_id: Option<String>,
    pub synced_to_device: bool,
    pub last_sync: Option<Timestamp>,
}

/// [`Article`] with its texts as characters.
#[verifier::ext_equal]
pub struct ArticleView {
    pub id: Seq<char>,
    pub provider: ReadLaterProvider,
    pub provider_id: Seq<char>,
    pub url: Seq<char>,
    pub title: Seq<char>,
    pub excerpt: Option<Seq<char>>,
    pub author: Option<Seq<char>>,
    pub word_count: Option<u32>,
    pub reading_time_minutes: Option<u32>,
    pub tags: Seq<Seq<char>>,
    pub status: ReadStatus,
    pub favorite: bool,
    pub added_at: Timestamp,
    pub updated_at: Timestamp,
    pub read_at: Option<Timestamp>,
    pub content: Option<Seq<char>>,
    pub image_url: Option<Seq<char>>,
    pub document_id: Option<Seq<char>>,
    pub synced_to_device: bool,
    pub last_sync: Option<Timestamp>,
}

impl View for Article {
    type V = ArticleView;

    open spec fn view(&self) -> ArticleView {
        ArticleView {
            id: self.id@,
            provider: self.provider,
            provider_id: self.provider_id@,
            url: self.url@,
            title: self.title@,
            excerpt: crate::text::text_of(self.excerpt),
            author: crate::text::text_of(self.author),
            word_count: self.word_count,
            reading_time_minutes: self.reading_time_minutes,
            tags: crate::text::texts(self.tags@),
            status: self.status,
            favorite: self.favorite,
            added_at: self.added_at,
            updated_at: self.updated_at,
            read_at: self.read_at,
            content: crate::text::text_of(self.content),
            image_url: crate::text::text_of(self.image_url),
            document_id: crate::text::text_of(self.document_id),
            synced_to_device: self.synced_to_device,
            last_sync: self.last_sync,
        }
    }
}

impl Clone for Article {
    fn clone(&self) -> (r: Self)
        ensures
            r@ == self@,
    {
        Article {
            id: self.id.clone(),
            provider: self.provider,
            provider_id: self.provider_id.clone(),
            url: self.url.clone(),
            title: self.title.clone(),
            excerpt: self.excerpt.clone(),
            author: self.author.clone(),
            word_count: self.word_count,
            reading_time_minutes: self.reading_time_minutes,
            tags: copy(&self.tags),
            status: self.status,
            favorite: self.favorite,
            added_at: self.added_at,
            updated_at: self.updated_at,
            read_at: self.read_at,
            content: self.content.clone(),
            image_url: self.image_url.clone(),
            document_id: self.document_id.clone(),
            synced_to_device: self.synced_to_device,
            last_sync: self.last_sync,
        }
    }
}

/// Articles with their texts as characters.
pub open spec fn article_views(v: Seq<Article>) -> Seq<ArticleView> {
    v.map_values(|a: Article| a@)
}

#[derive(Debug, Clone)]
pub struct ArticleContent {
    pub html: String,
    pub images: Vec<ArticleImage>,
    pub styles: Option<String>,
}

#[derive(Debug, Clone)]
pub struct ArticleImage {
    pub url: String,
    pub alt: Option<String>,
    pub data: Option<Vec<u8>>,
}

#[derive(Debug)]
pub struct ProviderAccount {
    pub id: String,
    pub name: String,
    pub provider: ReadLaterProvider,
    pub enabled: bool,
    pub config: ProviderConfig,
    pub sync_settings: SyncSettings,
    pub last_sync: Option<Timestamp>,
    pub created_at: Timestamp,
}

/// Provider settings. The credentials among them never appear in what clients are sent; they are
/// kept apart, as [`ProviderSecrets`].
#[derive(Debug)]
pub enum ProviderConfig {
    Pocket { consumer_key: String, access_token: Option<String>, username: Option<String> },
    Instapaper {
        oauth_token: Option<String>,
        oauth_token_secret: Option<String>,
        username: Option<String>,
    },
    Wallabag {
        instance_url: String,
        client_id: String,
        client_secret: Option<String>,
        access_token: Option<String>,
        refresh_token: Option<String>,
        token_expires_at: Option<Timestamp>,
        /// Wallabag account used for the OAuth password grant when there is no usable refresh
        /// token.
        username: Option<String>,
        password: Option<String>,
    },
    /// Discontinued provider.
    Omnivore {  },
}

impl Clone for ProviderConfig {
    fn clone(&self) -> (r: Self)
        ensures
            r == *self,
    {
        match self {
            ProviderConfig::Pocket { consumer_key, access_token, username } =>
            ProviderConfig::Pocket {
                consumer_key: consumer_key.clone(),
                access_token: access_token.clone(),
                username: username.clone(),
            },
            ProviderConfig::Instapaper { oauth_token, oauth_token_secret, username } =>
            ProviderConfig::Instapaper {
                oauth_token: oauth_token.clone(),
                oauth_token_secret: oauth_token_secret.clone(),
                username: username.clone(),
            },
            ProviderConfig::Wallabag {
                instance_url,
                client_id,
                client_secret,
                access_token,
                refresh_token,
                token_expires_at,
                username,
                password,
            } => ProviderConfig::Wallabag {
                instance_url: instance_url.clone(),
                client_id: client_id.clone(),
                client_secret: client_secret.clone(),
                access_token: access_token.clone(),
                refresh_token: refresh_token.clone(),
                token_expires_at: *token_expires_at,
                username: username.clone(),
                password: password.clone(),
            },
            ProviderConfig::Omnivore {  } => ProviderConfig::Omnivore {  },
        }
    }
}

/// Credential fields of a [`ProviderConfig`], stored apart from it and kept out of all API
/// responses.
#[derive(Debug)]
pub struct ProviderSecrets {
    pub access_token: Option<String>,
    pub refresh_token: Option<String>,
    pub client_secret: Option<String>,
    pub oauth_token: Option<String>,
    pub oauth_token_secret: Option<String>,
    pub password: Option<String>,
}

impl Default for ProviderSecrets {
    fn default() -> (r: Self)
        ensures
            r == no_secrets(),
    {
        ProviderSecrets {
            access_token: None,
            refresh_token: None,
            client_secret: None,
            oauth_token: None,
            oauth_token_secret: None,
            password: None,
        }
    }
}

/// No credentials.
pub open spec fn no_secrets() -> ProviderSecrets {
    ProviderSecrets {
        access_token: None,
        refresh_token: None,
        client_secret: None,
        oauth_token: None,
        oauth_token_secret: None,
        password: None,
    }
}

/// The credentials of a configuration.
pub open spec fn secrets_of(c: ProviderConfig) -> ProviderSecrets {
    match c {
        ProviderConfig::Pocket { access_token, .. } => ProviderSecrets {
            access_token,
            ..no_secrets()
        },
        ProviderConfig::Instapaper { oauth_token, oauth_token_secret, .. } => ProviderSecrets {
            oauth_token,
            oauth_token_secret,
            ..no_secrets()
        },
        ProviderConfig::Wallabag { client_secret, access_token, refresh_token, password, .. } =>
        ProviderSecrets {
            access_token,
            refresh_token,
            client_secret,
            password,
            ..no_secrets()
        },
        ProviderConfig::Omnivore {  } => no_secrets(),
    }
}

/// A credential that is stored, and else the one that is there.
pub open spec fn stored_or(stored: Option<String>, field: Option<String>) -> Option<String> {
    match stored {
        Some(s) => Some(s),
        None => field,
    }
}

/// A configuration with the credentials that are stored.
pub open spec fn with_secrets(c: ProviderConfig, s: ProviderSecrets) -> ProviderConfig {
    match c {
        ProviderConfig::Pocket { consumer_key, access_token, username } => ProviderConfig::Pocket {
            consumer_key,
            access_token: stored_or(s.access_token, access_token),
            username,
        },
        ProviderConfig::Instapaper { oauth_token, oauth_token_secret, username } =>
        ProviderConfig::Instapaper {
            oauth_token: stored_or(s.oauth_token, oauth_token),
            oauth_token_secret: stored_or(s.oauth_token_secret, oauth_token_secret),
            username,
        },
        ProviderConfig::Wallabag {
            instance_url,
            client_id,
            client_secret,
            access_token,
            refresh_token,
            token_expires_at,
            username,
            password,
        } => ProviderConfig::Wallabag {
            instance_url,
            client_id,
            client_secret: stored_or(s.client_secret, client_secret),
            access_token: stored_or(s.access_token, access_token),
            refresh_token: stored_or(s.refresh_token, refresh_token),
            token_expires_at,
            username,
            password: stored_or(s.password, password),
        },
        ProviderConfig::Omnivore {  } => c,
    }
}

/// A configuration without its credentials: what clients are sent, and what is stored beside them.
pub open spec fn without_secrets(c: ProviderConfig) -> ProviderConfig {
    match c {
        ProviderConfig::Pocket { consumer_key, access_token, username } => ProviderConfig::Pocket {
            consumer_key,
            access_token: None,
            username,
        },
        ProviderConfig::Instapaper { oauth_token, oauth_token_secret, username } =>
        ProviderConfig::Instapaper { oauth_token: None, oauth_token_secret: None, username },
        ProviderConfig::Wallabag {
            instance_url,
            client_id,
            client_secret,
            access_token,
            refresh_token,
            token_expires_at,
            username,
            password,
        } => ProviderConfig::Wallabag {
            instance_url,
            client_id,
            client_secret: None,
            access_token: None,
            refresh_token: None,
            token_expires_at,
            username,
            password: None,
        },
        ProviderConfig::Omnivore {  } => c,
    }
}

/// What is stored of a configuration, with its credentials apart, gives it back; and what stands
/// beside the credentials holds none.
pub proof fn law_credentials_persist_apart(c: ProviderConfig)
    ensures
        with_secrets(without_secrets(c), secrets_of(c)) == c,
        secrets_of(without_secrets(c)) == no_secrets(),
{
}

fn fill(field: &mut Option<String>, v: Option<String>)
    ensures
        *final(field) == stored_or(v, *old(field)),
{
    if v.is_some() {
        *field = v;
    }
}

impl ProviderConfig {
    /// The credentials.
    pub fn secrets(&self) -> (r: ProviderSecrets)
        ensures
            r == secrets_of(*self),
    {
        let mut out = ProviderSecrets::default();
        match self {
            ProviderConfig::Pocket { access_token, .. } => {
                out.access_token = access_token.clone();
            },
            ProviderConfig::Instapaper { oauth_token, oauth_token_secret, .. } => {
                out.oauth_token = oauth_token.clone();
                out.oauth_token_secret = oauth_token_secret.clone();
            },
            ProviderConfig::Wallabag { client_secret, access_token, refresh_token, password, .. } => {
                out.access_token = access_token.clone();
                out.refresh_token = refresh_token.clone();
                out.client_secret = client_secret.clone();
                out.password = password.clone();
            },
            ProviderConfig::Omnivore {  } => {},
        }
        out
    }

    /// The configuration without its credentials.
    pub fn public_part(&self) -> (r: ProviderConfig)
        ensures
            r == without_secrets(*self),
    {
        match self {
            ProviderConfig::Pocket { consumer_key, username, .. } => ProviderConfig::Pocket {
                consumer_key: consumer_key.clone(),
                access_token: None,
                username: username.clone(),
            },
            ProviderConfig::Instapaper { username, .. } => ProviderConfig::Instapaper {
                oauth_token: None,
                oauth_token_secret: None,
                username: username.clone(),
            },
            ProviderConfig::Wallabag {
                instance_url,
                client_id,
                token_expires_at,
                username,
                ..
            } => ProviderConfig::Wallabag {
                instance_url: instance_url.clone(),
                client_id: client_id.clone(),
                client_secret: None,
                access_token: None,
                refresh_token: None,
                token_expires_at: *token_expires_at,
                username: username.clone(),
                password: None,
            },
            ProviderConfig::Omnivore {  } => ProviderConfig::Omnivore {  },
        }
    }

    /// Fill credential fields from stored secrets. A secret that is absent from the store leaves
    /// the field as it is, so configs written before secrets were split out (when they were still
    /// inside the config itself) keep working.
    pub fn apply_secrets(&mut self, s: ProviderSecrets)
        ensures
            *final(self) == with_secrets(*old(self), s),
    {
        match self {
            ProviderConfig::Pocket { access_token, .. } => {
                fill(access_token, s.access_token);
            },
            ProviderConfig::Instapaper { oauth_token, oauth_token_secret, .. } => {
                fill(oauth_token, s.oauth_token);
                fill(oauth_token_secret, s.oauth_token_secret);
            },
            ProviderConfig::Wallabag { client_secret, access_token, refresh_token, password, .. } => {
                fill(client_secret, s.client_secret);
                fill(access_token, s.access_token);
                fill(refresh_token, s.refresh_token);
                fill(password, s.password);
            },
            ProviderConfig::Omnivore {  } => {},
        }
    }

    /// Whether the config holds the credentials its provider needs for API calls.
    pub fn is_authenticated(&self) -> (r: bool)
        ensures
            r == authenticated(*self),
    {
        match self {
            ProviderConfig::Pocket { access_token, .. } => access_token.is_some(),
            ProviderConfig::Instapaper { oauth_token, .. } => oauth_token.is_some(),
            ProviderConfig::Wallabag { access_token, .. } => access_token.is_some(),
            ProviderConfig::Omnivore {  } => false,
        }
    }
}

/// Whether a configuration holds the credentials its provider needs.
pub open spec fn authenticated(c: ProviderConfig) -> bool {
    match c {
        ProviderConfig::Pocket { access_token, .. } => access_token is Some,
        ProviderConfig::Instapaper { oauth_token, .. } => oauth_token is Some,
        ProviderConfig::Wallabag { access_token, .. } => access_token is Some,
        ProviderConfig::Omnivore {  } => false,
    }
}

#[derive(Debug)]
pub struct SyncSettings {
    pub auto_sync: bool,
    pub sync_interval_minutes: u32,
    pub max_articles: u32,
    pub convert_format: ArticleFormat,
    pub sync_read_status: bool,
    pub tag_filters: Vec<TagFilter>,
    pub include_favorites_only: bool,
    pub include_archived: bool,
    pub folder_id: Option<String>,
}

/// Whether settings are those of an account that nothing was asked for.
pub open spec fn default_settings(r: SyncSettings) -> bool {
    &&& r.auto_sync
    &&& r.sync_interval_minutes == 60
    &&& r.max_articles == 50
    &&& r.convert_format == ArticleFormat::Epub
    &&& r.sync_read_status
    &&& r.tag_filters@.len() == 0
    &&& !r.include_favorites_only
    &&& !r.include_archived
    &&& r.folder_id is None
}

impl Default for SyncSettings {
    fn default() -> (r: Self)
        ensures
            default_settings(r),
    {
        SyncSettings {
            auto_sync: true,
            sync_interval_minutes: 60,
            max_articles: 50,
            convert_format: ArticleFormat::Epub,
            sync_read_status: true,
            tag_filters: Vec::new(),
            include_favorites_only: false,
            include_archived: false,
            folder_id: None,
        }
    }
}

/// Whether two settings are the same.
pub open spec fn same_settings(a: SyncSettings, b: SyncSettings) -> bool {
    &&& a.auto_sync == b.auto_sync
    &&& a.sync_interval_minutes == b.sync_interval_minutes
    &&& a.max_articles == b.max_articles
    &&& a.convert_format == b.convert_format
    &&& a.sync_read_status == b.sync_read_status
    &&& a.tag_filters@ == b.tag_filters@
    &&& a.include_favorites_only == b.include_favorites_only
    &&& a.include_archived == b.include_archived
    &&& a.folder_id == b.folder_id
}

impl Clone for SyncSettings {
    fn clone(&self) -> (r: Self)
        ensures
            same_settings(r, *self),
    {
        let mut tag_filters: Vec<TagFilter> = Vec::new();
        let mut i: usize = 0;
        while i < self.tag_filters.len()
            invariant
                i <= self.tag_filters@.len(),
                tag_filters@ == self.tag_filters@.take(i as int),
            decreases self.tag_filters@.len() - i,
        {
            let filter = &self.tag_filters[i];
            tag_filters.push(TagFilter { tag: filter.tag.clone(), included: filter.included });
            i += 1;
            assert(tag_filters@ =~= self.tag_filters@.take(i as int));
        }
        assert(tag_filters@ =~= self.tag_filters@);
        SyncSettings {
            auto_sync: self.auto_sync,
            sync_interval_minutes: self.sync_interval_minutes,
            max_articles: self.max_articles,
            convert_format: self.convert_format,
            sync_read_status: self.sync_read_status,
            tag_filters,
            include_favorites_only: self.include_favorites_only,
            include_archived: self.include_archived,
            folder_id: self.folder_id.clone(),
        }
    }
}

#[derive(Debug, Clone)]
pub struct TagFilter {
    pub tag: String,
    /// Whether articles must carry the tag; else they must not.
    pub included: bool,
}

#[derive(Debug)]
pub struct OAuthState {
    pub provider: ReadLaterProvider,
    pub request_token: Option<String>,
    pub redirect_uri: String,
    pub created_at: Timestamp,
}

#[derive(Debug)]
pub struct OAuthCallback {
    pub code: Option<String>,
    pub oauth_token: Option<String>,
    pub oauth_verifier: Option<String>,
    pub state: Option<String>,
    /// Account credentials for username/password flows (Instapaper xAuth). Never echoed back.
    pub username: Option<String>,
    pub password: Option<String>,
}

/// Outcome of one account's sync.
#[derive(Debug)]
pub struct SyncResult {
    pub account_id: String,
    pub provider: ReadLaterProvider,
    /// Articles the provider returned (changed since the account's last sync).
    pub articles_fetched: u32,
    /// Articles put on the device in this sync, each as a new document.
    pub articles_synced: u32,
    /// Articles rendered to the account's format in this sync.
    pub articles_converted: u32,
    /// Selected articles skipped because they are already on the device.
    pub articles_already_synced: u32,
    pub read_status_synced: u32,
    pub errors: Vec<String>,
    pub duration_ms: u64,
    pub completed_at: Timestamp,
}

#[derive(Debug)]
pub struct ArticleQuery {
    pub provider: Option<ReadLaterProvider>,
    pub status: Option<ReadStatus>,
    pub tags: Option<Vec<String>>,
    pub favorite: Option<bool>,
    pub synced: Option<bool>,
    pub search: Option<String>,
    pub limit: Option<usize>,
    pub offset: Option<usize>,
    pub sort_by: Option<ArticleSortBy>,
    pub sort_order: Option<SortOrder>,
}

impl Default for ArticleQuery {
    fn default() -> (r: Self)
        ensures
            r == (ArticleQuery {
                provider: None,
                status: None,
                tags: None,
                favorite: None,
                synced: None,
                search: None,
                limit: None,
                offset: None,
                sort_by: None,
                sort_order: None,
            }),
    {
        ArticleQuery {
            provider: None,
            status: None,
            tags: None,
            favorite: None,
            synced: None,
            search: None,
            limit: None,
            offset: None,
            sort_by: None,
            sort_order: None,
        }
    }
}

#[derive(Debug, Clone, Copy, PartialEq, Eq, Structural)]
pub enum ArticleSortBy {
    AddedAt,
    UpdatedAt,
    Title,
    ReadingTime,
}

impl Default for ArticleSortBy {
    fn default() -> (r: Self)
        ensures
            r == ArticleSortBy::AddedAt,
    {
        ArticleSortBy::AddedAt
    }
}

#[derive(Debug, Clone, Copy, PartialEq, Eq, Structural)]
pub enum SortOrder {
    Desc,
    Asc,
}

impl Default for SortOrder {
    fn default() -> (r: Self)
        ensures
            r == SortOrder::Desc,
    {
        SortOrder::Desc
    }
}

/// Whether a provider still exists: the discontinued one fails every operation.
pub fn available(kind: ReadLaterProvider) -> (r: Result<(), ReadLaterError>)
    ensures
        if kind == ReadLaterProvider::Omnivore {
            r matches Err(e) && e@ == ReadLaterErrorView::Discontinued(OMNIVORE_DISCONTINUED@)
        } else {
            r is Ok
        },
{
    if kind == ReadLaterProvider::Omnivore {
        Err(ReadLaterError::Discontinued(OMNIVORE_DISCONTINUED.to_owned()))
    } else {
        Ok(())
    }
}

/// An account is authenticated exactly where it has the token that its provider hands out; one of a
/// provider that is gone never is.
pub proof fn law_who_is_authenticated(c: ProviderConfig)
    ensures
        c matches ProviderConfig::Pocket { access_token, .. } ==> (authenticated(c)
            <==> access_token is Some),
        c matches ProviderConfig::Instapaper { oauth_token, .. } ==> (authenticated(c)
            <==> oauth_token is Some),
        c matches ProviderConfig::Wallabag { access_token, .. } ==> (authenticated(c)
            <==> access_token is Some),
        c is Omnivore ==> !authenticated(c),
{
}

/// Names tell providers apart, and statuses.
pub proof fn law_names_tell_apart(
    p: ReadLaterProvider,
    q: ReadLaterProvider,
    s: ReadStatus,
    t: ReadStatus,
)
    ensures
        provider_name(p) == provider_name(q) ==> p == q,
        status_name(s) == status_name(t) ==> s == t,
        p is Pocket ==> provider_name(p) == "pocket"@,
        p is Instapaper ==> provider_name(p) == "instapaper"@,
        p is Wallabag ==> provider_name(p) == "wallabag"@,
        p is Omnivore ==> provider_name(p) == "omnivore"@,
        s is Unread ==> status_name(s) == "unread"@,
        s is InProgress ==> status_name(s) == "inprogress"@,
        s is Read ==> status_name(s) == "read"@,
        s is Archived ==> status_name(s) == "archived"@,
{
    reveal_strlit("pocket");
    reveal_strlit("instapaper");
    reveal_strlit("wallabag");
    reveal_strlit("omnivore");
    assert("pocket"@.len() == 6 && "instapaper"@.len() == 10);
    assert("wallabag"@[0] == 'w' && "omnivore"@[0] == 'o');
    assert("wallabag"@.len() == 8 && "omnivore"@.len() == 8);
    reveal_strlit("unread");
    reveal_strlit("inprogress");
    reveal_strlit("read");
    reveal_strlit("archived");
    assert("unread"@.len() == 6 && "inprogress"@.len() == 10 && "read"@.len() == 4
        && "archived"@.len() == 8);
}

/// Credentials that are stored apart are put back where they came from, and only what is missing is
/// taken from the account itself.
pub proof fn law_stored_credentials_come_first(c: ProviderConfig, s: ProviderSecrets)
    ensures
        c matches ProviderConfig::Pocket { access_token, consumer_key, username } ==> (with_secrets(
            c,
            s,
        ) matches ProviderConfig::Pocket { access_token: t, consumer_key: k, username: u } && k
            == consumer_key && u == username && t == (if s.access_token is Some {
            s.access_token
        } else {
            access_token
        })),
        c matches ProviderConfig::Instapaper { oauth_token, oauth_token_secret, username } ==> (
        with_secrets(c, s) matches ProviderConfig::Instapaper {
            oauth_token: t,
            oauth_token_secret: x,
            username: u,
        } && u == username && t == (if s.oauth_token is Some {
            s.oauth_token
        } else {
            oauth_token
        }) && x == (if s.oauth_token_secret is Some {
            s.oauth_token_secret
        } else {
            oauth_token_secret
        })),
        c matches ProviderConfig::Wallabag {
            client_secret,
            access_token,
            refresh_token,
            password,
            ..
        } ==> (with_secrets(c, s) matches ProviderConfig::Wallabag {
            client_secret: a,
            access_token: b,
            refresh_token: r,
            password: p,
            ..
        } && a == (if s.client_secret is Some {
            s.client_secret
        } else {
            client_secret
        }) && b == (if s.access_token is Some {
            s.access_token
        } else {
            access_token
        }) && r == (if s.refresh_token is Some {
            s.refresh_token
        } else {
            refresh_token
        }) && p == (if s.password is Some {
            s.password
        } else {
            password
        })),
{
}

/// What an error is told with holds what caused it.
pub proof fn law_errors_tell_their_cause(cause: Seq<char>, seconds: u64)
    ensures
        error_text(ReadLaterErrorView::ProviderNotFound(cause)) == "Provider not found: "@ + cause,
        error_text(ReadLaterErrorView::ArticleNotFound(cause)) == "Article not found: "@ + cause,
        error_text(ReadLaterErrorView::AuthRequired(cause)) == "Authentication required for "@
            + cause,
        error_text(ReadLaterErrorView::OAuth(cause)) == "OAuth error: "@ + cause,
        error_text(ReadLaterErrorView::Api(cause)) == "API error: "@ + cause,
        error_text(ReadLaterErrorView::Conversion(cause)) == "Conversion error: "@ + cause,
        error_text(ReadLaterErrorView::Database(cause)) == "Database error: "@ + cause,
        error_text(ReadLaterErrorView::Network(cause)) == "Network error: "@ + cause,
        error_text(ReadLaterErrorView::Io(cause)) == "IO error: "@ + cause,
        error_text(ReadLaterErrorView::Json(cause)) == "JSON error: "@ + cause,
        error_text(ReadLaterErrorView::Discontinued(cause)) == cause,
        error_text(ReadLaterErrorView::RateLimited(seconds)) == "Rate limited, retry after "@
            + crate::text::decimal(seconds as nat) + " seconds"@,
{
}

/// An article is told as it is.
pub proof fn law_an_article_is_told_as_it_is(a: Article, i: int)
    ensures
        a@.id == a.id@ && a@.provider == a.provider && a@.provider_id == a.provider_id@,
        a@.url == a.url@ && a@.title == a.title@,
        a@.word_count == a.word_count && a@.reading_time_minutes == a.reading_time_minutes,
        a@.status == a.status && a@.favorite == a.favorite,
        a@.added_at == a.added_at && a@.updated_at == a.updated_at && a@.read_at == a.read_at,
        a@.synced_to_device == a.synced_to_device && a@.last_sync == a.last_sync,
        a@.tags.len() == a.tags@.len(),
        0 <= i < a.tags@.len() ==> a@.tags[i] == a.tags@[i]@,
        a.excerpt matches Some(s) ==> a@.excerpt == Some(s@),
        a.excerpt is None ==> a@.excerpt is None,
        a.author matches Some(s) ==> a@.author == Some(s@),
        a.author is None ==> a@.author is None,
        a.content matches Some(s) ==> a@.content == Some(s@),
        a.content is None ==> a@.content is None,
        a.image_url matches Some(s) ==> a@.image_url == Some(s@),
        a.image_url is None ==> a@.image_url is None,
        a.document_id matches Some(s) ==> a@.document_id == Some(s@),
        a.document_id is None ==> a@.document_id is None,
{
}

} // verus!

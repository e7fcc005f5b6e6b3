//! Wallabag: what is asked of its API, how its tokens are kept fresh, and what its answers mean.

use vstd::prelude::*;
use vstd::string::*;

use crate::clock::{now, parse_rfc3339, Timestamp};
use crate::codec::random_uuid;
use crate::integrations::walk::copy;
use crate::readlater::convert::{escape_html, safe_href};
use crate::readlater::{
    Article, ArticleContent, OAuthCallback, OAuthState, ProviderConfig, ReadLaterError,
    ReadLaterProvider, ReadStatus,
};
use crate::text::{char_count, decimal_i64, slice, trim_end_char};

verus! {

/// Wallabag's default access-token lifetime, assumed when a token response omits `expires_in`.
pub const WALLABAG_DEFAULT_TOKEN_SECS: i64 = 3600;

/// Wallabag, with the config from the latest token refresh.
#[derive(Debug)]
pub struct WallabagProvider {
    pub refreshed: Option<ProviderConfig>,
}

/// An answer to a request for a token.
#[derive(Debug)]
pub struct WallabagToken {
    pub access_token: String,
    pub refresh_token: Option<String>,
    pub expires_in: Option<i64>,
}

/// How a token can be asked for.
#[derive(Debug, Clone, Copy, PartialEq, Eq, Structural)]
pub enum Grant {
    RefreshToken,
    Password,
}

/// Whether a configuration has what the password grant takes.
pub open spec fn has_password(c: ProviderConfig) -> bool {
    c matches ProviderConfig::Wallabag { username, password, .. } && username is Some && password
        is Some
}

/// Whether a new token can be obtained.
pub open spec fn can_refresh(c: ProviderConfig) -> bool {
    c matches ProviderConfig::Wallabag { client_secret, refresh_token, .. } && client_secret is Some
        && (refresh_token is Some || has_password(c))
}

/// Whether a new Wallabag token can be obtained: a client secret plus either a refresh token or
/// password-grant credentials.
pub fn wallabag_can_refresh(config: &ProviderConfig) -> (r: bool)
    ensures
        r == can_refresh(*config),
{
    match config {
        ProviderConfig::Wallabag { client_secret, refresh_token, username, password, .. } => {
            client_secret.is_some() && (refresh_token.is_some() || (username.is_some()
                && password.is_some()))
        },
        _ => false,
    }
}

/// Whether a token is to be refreshed: there is none, it expires within five minutes, or its expiry
/// is not known and a new one can be obtained.
pub open spec fn needs_refresh(
    has_token: bool,
    expires_at: Option<Timestamp>,
    can_refresh: bool,
    at: Timestamp,
) -> bool {
    if !has_token {
        true
    } else {
        match expires_at {
            None => can_refresh,
            Some(t) => !t.later(Timestamp { seconds: (at.seconds + 300) as i64, nanos: at.nanos }),
        }
    }
}

/// Refresh only when there is no access token, or it has an expiry that is past or within five
/// minutes. A token with no recorded expiry is refreshed when new credentials can be obtained (the
/// refresh records an expiry, so this happens once) and otherwise used as-is; a 401 on use still
/// triggers a refresh-and-retry.
pub fn wallabag_token_needs_refresh(
    access_token: Option<&str>,
    expires_at: Option<Timestamp>,
    can_refresh: bool,
    at: Timestamp,
) -> (r: bool)
    requires
        at.valid(),
        at.nanos < 1_000_000_000,
        at.seconds + 300 <= crate::clock::MAX_SECONDS,
    ensures
        r == needs_refresh(access_token is Some, expires_at, can_refresh, at),
{
    match access_token {
        None => true,
        Some(_) => match expires_at {
            None => can_refresh,
            Some(t) => !t.is_after(Timestamp { seconds: at.seconds + 300, nanos: at.nanos }),
        },
    }
}

/// Whether a configuration's token is to be refreshed before it is used; only Wallabag's has one.
pub fn token_stale(config: &ProviderConfig, at: Timestamp) -> (r: Result<bool, ReadLaterError>)
    requires
        at.valid(),
        at.nanos < 1_000_000_000,
        at.seconds + 300 <= crate::clock::MAX_SECONDS,
    ensures
        match *config {
            ProviderConfig::Wallabag { access_token, token_expires_at, .. } => r == Ok::<
                bool,
                ReadLaterError,
            >(needs_refresh(access_token is Some, token_expires_at, can_refresh(*config), at)),
            _ => r matches Err(e) && e@ == crate::readlater::ReadLaterErrorView::Api(
                "Invalid config"@,
            ),
        },
{
    match config {
        ProviderConfig::Wallabag { access_token, token_expires_at, .. } => Ok(
            wallabag_token_needs_refresh(
                match access_token {
                    Some(t) => Some(t.as_str()),
                    None => None,
                },
                *token_expires_at,
                wallabag_can_refresh(config),
                at,
            ),
        ),
        _ => Err(ReadLaterError::Api("Invalid config".to_owned())),
    }
}

/// Where tokens are asked for.
pub fn token_url(instance_url: &str) -> (r: String)
    ensures
        r@ == crate::text::trimmed_end(instance_url@, '/') + "/oauth/v2/token"@,
{
    let mut out = trim_end_char(instance_url, '/').to_owned();
    out.push_str("/oauth/v2/token");
    out
}

/// How a new token is asked for first: by the refresh token, and without one by the password.
pub open spec fn first_grant_of(c: ProviderConfig) -> Option<Grant> {
    match c {
        ProviderConfig::Wallabag { refresh_token, .. } => if refresh_token is Some {
            Some(Grant::RefreshToken)
        } else if has_password(c) {
            Some(Grant::Password)
        } else {
            None
        },
        _ => None,
    }
}

/// How a new token is asked for first.
pub fn first_grant(config: &ProviderConfig) -> (r: Result<Grant, ReadLaterError>)
    ensures
        match *config {
            ProviderConfig::Wallabag { client_secret, .. } => if client_secret is None {
                r matches Err(e) && e@ == crate::readlater::ReadLaterErrorView::AuthRequired(
                    "Wallabag client secret"@,
                )
            } else {
                match first_grant_of(*config) {
                    Some(g) => r == Ok::<Grant, ReadLaterError>(g),
                    None => r matches Err(e) && e@
                        == crate::readlater::ReadLaterErrorView::AuthRequired("Wallabag"@),
                }
            },
            _ => r matches Err(e) && e@ == crate::readlater::ReadLaterErrorView::Api(
                "Invalid config"@,
            ),
        },
{
    match config {
        ProviderConfig::Wallabag { client_secret, refresh_token, username, password, .. } => {
            if client_secret.is_none() {
                Err(ReadLaterError::AuthRequired("Wallabag client secret".to_owned()))
            } else if refresh_token.is_some() {
                Ok(Grant::RefreshToken)
            } else if username.is_some() && password.is_some() {
                Ok(Grant::Password)
            } else {
                Err(ReadLaterError::AuthRequired("Wallabag".to_owned()))
            }
        },
        _ => Err(ReadLaterError::Api("Invalid config".to_owned())),
    }
}

/// How a new token is asked for after a grant failed: by the password after the refresh token, where
/// there is one, and else not at all.
pub fn next_grant(config: &ProviderConfig, failed: Grant, error: ReadLaterError) -> (r: Result<
    Grant,
    ReadLaterError,
>)
    ensures
        if failed == Grant::RefreshToken && has_password(*config) {
            r == Ok::<Grant, ReadLaterError>(Grant::Password)
        } else {
            r == Err::<Grant, ReadLaterError>(error)
        },
{
    let password = match config {
        ProviderConfig::Wallabag { username, password, .. } => username.is_some()
            && password.is_some(),
        _ => false,
    };
    if failed == Grant::RefreshToken && password {
        Ok(Grant::Password)
    } else {
        Err(error)
    }
}

/// The form that a token is asked for with.
pub open spec fn grant_of(c: ProviderConfig, grant: Grant) -> Seq<(Seq<char>, Seq<char>)> {
    match c {
        ProviderConfig::Wallabag {
            client_id,
            client_secret,
            refresh_token,
            username,
            password,
            ..
        } => match grant {
            Grant::RefreshToken => seq![
                ("grant_type"@, "refresh_token"@),
                ("refresh_token"@, crate::text::or_empty(refresh_token)),
                ("client_id"@, client_id@),
                ("client_secret"@, crate::text::or_empty(client_secret)),
            ],
            Grant::Password => seq![
                ("grant_type"@, "password"@),
                ("client_id"@, client_id@),
                ("client_secret"@, crate::text::or_empty(client_secret)),
                ("username"@, crate::text::or_empty(username)),
                ("password"@, crate::text::or_empty(password)),
            ],
        },
        _ => Seq::empty(),
    }
}

fn or_nothing<'a>(s: &'a Option<String>) -> (r: &'a str)
    ensures
        r@ == crate::text::or_empty(*s),
{
    match s {
        Some(s) => s.as_str(),
        None => {
            proof {
                reveal_strlit("");
                assert(""@ =~= Seq::empty());
            }
            ""
        },
    }
}

/// The form that a token is asked for with.
pub fn grant_form<'a>(config: &'a ProviderConfig, grant: Grant) -> (r: Vec<(&'static str, &'a str)>)
    ensures
        crate::integrations::oauth::pairs(r@) == grant_of(*config, grant),
{
    let mut out: Vec<(&'static str, &'a str)> = Vec::new();
    if let ProviderConfig::Wallabag {
        client_id,
        client_secret,
        refresh_token,
        username,
        password,
        ..
    } = config {
        match grant {
            Grant::RefreshToken => {
                out.push(("grant_type", "refresh_token"));
                out.push(("refresh_token", or_nothing(refresh_token)));
                out.push(("client_id", client_id.as_str()));
                out.push(("client_secret", or_nothing(client_secret)));
            },
            Grant::Password => {
                out.push(("grant_type", "password"));
                out.push(("client_id", client_id.as_str()));
                out.push(("client_secret", or_nothing(client_secret)));
                out.push(("username", or_nothing(username)));
                out.push(("password", or_nothing(password)));
            },
        }
    }
    assert(crate::integrations::oauth::pairs(out@) =~= grant_of(*config, grant));
    out
}

/// The seconds that a token lasts.
pub open spec fn lifetime(token: WallabagToken) -> i64 {
    match token.expires_in {
        Some(n) => n,
        None => WALLABAG_DEFAULT_TOKEN_SECS,
    }
}

/// A configuration with a new token, received at a time.
pub open spec fn with_token(c: ProviderConfig, token: WallabagToken, at: Timestamp) -> ProviderConfig {
    match c {
        ProviderConfig::Wallabag {
            instance_url,
            client_id,
            client_secret,
            access_token,
            refresh_token,
            token_expires_at,
            username,
            password,
        } => ProviderConfig::Wallabag {
            instance_url,
            client_id,
            client_secret,
            access_token: Some(token.access_token),
            refresh_token: crate::readlater::stored_or(token.refresh_token, refresh_token),
            token_expires_at: Some(
                Timestamp { seconds: (at.seconds + lifetime(token)) as i64, nanos: at.nanos },
            ),
            username,
            password,
        },
        _ => c,
    }
}

impl WallabagProvider {
    pub fn new() -> (r: Self)
        ensures
            r.refreshed is None,
    {
        WallabagProvider { refreshed: None }
    }

    /// A configuration with a new token, received at a time; it is kept for those who persist it.
    pub fn refreshed_config(
        &mut self,
        config: &ProviderConfig,
        token: WallabagToken,
        at: Timestamp,
    ) -> (r: ProviderConfig)
        requires
            at.valid(),
            at.nanos < 1_000_000_000,
            crate::clock::MIN_SECONDS <= at.seconds + lifetime(token) <= crate::clock::MAX_SECONDS,
        ensures
            r == with_token(*config, token, at),
            final(self).refreshed == Some(r),
    {
        let seconds: i64 = match token.expires_in {
            Some(n) => n,
            None => WALLABAG_DEFAULT_TOKEN_SECS,
        };
        let expires = Timestamp { seconds: at.seconds + seconds, nanos: at.nanos };
        let mut out = config.clone();
        if let ProviderConfig::Wallabag { access_token, refresh_token, token_expires_at, .. } =
            &mut out {
            *access_token = Some(token.access_token);
            if token.refresh_token.is_some() {
                *refresh_token = token.refresh_token;
            }
            *token_expires_at = Some(expires);
        }
        self.refreshed = Some(out.clone());
        out
    }

    /// The config produced by the most recent credential refresh, if any. Taking it clears it.
    pub fn take_refreshed_config(&mut self) -> (r: Option<ProviderConfig>)
        ensures
            r == old(self).refreshed,
            final(self).refreshed is None,
    {
        self.refreshed.take()
    }
}

/// Whether a request is sent again after its answer, with a new token: the server still answers 401
/// (a revoked token, or one whose expiry was never recorded), a new one can be obtained, and the
/// token was not renewed for this request already. So a request is sent twice at most.
pub fn after_reply(status: u16, renewed: bool, config: &ProviderConfig) -> (r: bool)
    ensures
        r == (!renewed && status == 401 && can_refresh(*config)),
{
    !renewed && status == 401 && wallabag_can_refresh(config)
}

/// A token that was just refreshed is used as it is, unless it expires within five minutes.
pub proof fn law_refreshed_tokens_are_used(c: ProviderConfig, token: WallabagToken, at: Timestamp)
    requires
        c is Wallabag,
        at.valid(),
        lifetime(token) > 300,
        at.seconds + lifetime(token) <= crate::clock::MAX_SECONDS,
    ensures
        with_token(c, token, at) matches ProviderConfig::Wallabag {
            access_token,
            token_expires_at,
            ..
        } && !needs_refresh(access_token is Some, token_expires_at, can_refresh(c), at),
        crate::readlater::authenticated(with_token(c, token, at)),
        can_refresh(c) ==> can_refresh(with_token(c, token, at)),
{
}

/// Where a request goes, and the token that it carries.
pub fn endpoint<'a>(config: &'a ProviderConfig) -> (r: Result<(&'a str, &'a str), ReadLaterError>)
    ensures
        match *config {
            ProviderConfig::Wallabag { instance_url, access_token, .. } => match access_token {
                Some(t) => r matches Ok((u, a)) && u@ == crate::text::trimmed_end(
                    instance_url@,
                    '/',
                ) && a@ == t@,
                None => r matches Err(e) && e@
                    == crate::readlater::ReadLaterErrorView::AuthRequired("Wallabag"@),
            },
            _ => r matches Err(e) && e@ == crate::readlater::ReadLaterErrorView::Api(
                "Invalid config"@,
            ),
        },
{
    match config {
        ProviderConfig::Wallabag { instance_url, access_token, .. } => match access_token {
            Some(t) => Ok((trim_end_char(instance_url.as_str(), '/'), t.as_str())),
            None => Err(ReadLaterError::AuthRequired("Wallabag".to_owned())),
        },
        _ => Err(ReadLaterError::Api("Invalid config".to_owned())),
    }
}

/// The state of a flow that begins.
pub fn start_oauth(redirect_uri: &str, at: Timestamp) -> (r: OAuthState)
    ensures
        r.provider == ReadLaterProvider::Wallabag,
        r.request_token is None,
        r.redirect_uri@ == redirect_uri@,
        r.created_at == at,
{
    OAuthState {
        provider: ReadLaterProvider::Wallabag,
        request_token: None,
        redirect_uri: redirect_uri.to_owned(),
        created_at: at,
    }
}

/// A flow cannot be completed: it would need the instance's configuration.
pub fn complete_oauth(callback: &OAuthCallback) -> (r: ReadLaterError)
    ensures
        r@ == crate::readlater::ReadLaterErrorView::OAuth(
            match callback.code {
                Some(_) => "Wallabag OAuth requires instance configuration"@,
                None => "Missing authorization code"@,
            },
        ),
{
    match &callback.code {
        Some(_) => ReadLaterError::OAuth(
            "Wallabag OAuth requires instance configuration".to_owned(),
        ),
        None => ReadLaterError::OAuth("Missing authorization code".to_owned()),
    }
}

/// The query for entries: all, or those that changed since a time.
pub fn entries_query(since: Option<Timestamp>) -> (r: String)
    ensures
        r@ == (match since {
            Some(t) => "perPage=100&sort=created&order=desc"@ + "&since="@
                + crate::text::signed_decimal(t.seconds as int),
            None => "perPage=100&sort=created&order=desc"@,
        }),
{
    let mut out = "perPage=100&sort=created&order=desc".to_owned();
    if let Some(t) = since {
        out.push_str("&since=");
        out.push_str(decimal_i64(t.seconds).as_str());
    }
    out
}

/// Where an entry is.
pub fn entry_url(base: &str, provider_id: &str) -> (r: String)
    ensures
        r@ == base@ + "/api/entries/"@ + provider_id@ + ".json"@,
{
    let mut out = base.to_owned();
    out.push_str("/api/entries/");
    out.push_str(provider_id);
    out.push_str(".json");
    out
}

/// An entry of Wallabag's list.
#[derive(Debug)]
pub struct WallabagEntry {
    pub id: i64,
    pub url: String,
    pub title: String,
    pub content: Option<String>,
    pub reading_time: Option<u32>,
    pub is_archived: i32,
    pub is_starred: i32,
    /// The labels of the tags.
    pub tags: Vec<String>,
    pub created_at: String,
    pub updated_at: String,
    pub preview_picture: Option<String>,
}

/// The words that reading for some minutes is, at 200 each.
pub open spec fn words_for(minutes: Option<u32>) -> Option<u32> {
    match minutes {
        Some(t) => Some((t * 200) as u32),
        None => None,
    }
}

/// Whether a reading time's words can be counted.
pub open spec fn countable(minutes: Option<u32>) -> bool {
    minutes matches Some(t) ==> t * 200 <= u32::MAX
}

/// The first `n` characters of a text.
pub open spec fn beginning(s: Seq<char>, n: int) -> Seq<char> {
    if s.len() > n {
        s.take(n)
    } else {
        s
    }
}

/// The time that a text tells, or the present.
pub open spec fn time_told(text: Seq<char>, at: Timestamp) -> Timestamp {
    match crate::clock::told(text) {
        Some(t) => t,
        None => at,
    }
}

/// The time that a text tells, or the present.
pub fn time_or_now(text: &str, at: Timestamp) -> (r: Timestamp)
    ensures
        r == time_told(text@, at),
        at.valid() ==> r.valid(),
{
    match parse_rfc3339(text) {
        Some(t) => t,
        None => at,
    }
}

/// The article that an entry is, under an id, at a time.
pub open spec fn article_of(
    e: WallabagEntry,
    id: Seq<char>,
    at: Timestamp,
) -> crate::readlater::ArticleView {
    crate::readlater::ArticleView {
        id,
        provider: ReadLaterProvider::Wallabag,
        provider_id: crate::text::signed_decimal(e.id as int),
        url: e.url@,
        title: e.title@,
        excerpt: match e.content {
            Some(c) => Some(beginning(c@, 300)),
            None => None,
        },
        author: None,
        word_count: words_for(e.reading_time),
        reading_time_minutes: e.reading_time,
        tags: crate::text::texts(e.tags@),
        status: if e.is_archived == 1 {
            ReadStatus::Archived
        } else {
            ReadStatus::Unread
        },
        favorite: e.is_starred == 1,
        added_at: time_told(e.created_at@, at),
        updated_at: time_told(e.updated_at@, at),
        read_at: if e.is_archived == 1 {
            Some(time_told(e.updated_at@, at))
        } else {
            None
        },
        content: crate::text::text_of(e.content),
        image_url: crate::text::text_of(e.preview_picture),
        document_id: None,
        synced_to_device: false,
        last_sync: None,
    }
}

fn words(minutes: Option<u32>) -> (r: Option<u32>)
    requires
        countable(minutes),
    ensures
        r == words_for(minutes),
{
    match minutes {
        Some(t) => Some(t * 200),
        None => None,
    }
}

impl WallabagEntry {
    /// The article that this is, under an id, at a time.
    pub fn to_article(&self, id: String, at: Timestamp) -> (r: Article)
        requires
            countable(self.reading_time),
        ensures
            r@ == article_of(*self, id@, at),
    {
        let excerpt = match &self.content {
            Some(c) => {
                let n: usize = char_count(c.as_str());
                if n > 300 {
                    let start = slice(c.as_str(), 0, 300);
                    assert(start@ =~= c@.take(300));
                    Some(start.to_owned())
                } else {
                    Some(c.clone())
                }
            },
            None => None,
        };
        let updated = time_or_now(self.updated_at.as_str(), at);
        let archived = self.is_archived == 1;
        Article {
            id,
            provider: ReadLaterProvider::Wallabag,
            provider_id: decimal_i64(self.id),
            url: self.url.clone(),
            title: self.title.clone(),
            excerpt,
            author: None,
            word_count: words(self.reading_time),
            reading_time_minutes: self.reading_time,
            tags: copy(&self.tags),
            status: if archived {
                ReadStatus::Archived
            } else {
                ReadStatus::Unread
            },
            favorite: self.is_starred == 1,
            added_at: time_or_now(self.created_at.as_str(), at),
            updated_at: updated,
            read_at: if archived {
                Some(updated)
            } else {
                None
            },
            content: self.content.clone(),
            image_url: self.preview_picture.clone(),
            document_id: None,
            synced_to_device: false,
            last_sync: None,
        }
    }
}

/// Whether `a` is the article that an entry is, under some id, at some time.
pub open spec fn is_article_of(e: WallabagEntry, a: crate::readlater::ArticleView) -> bool {
    exists|id: Seq<char>, at: Timestamp|
        id.len() == 36 && at.valid() && a == #[trigger] article_of(e, id, at)
}

/// The articles that entries are, each under an id of its own.
pub fn articles(entries: &Vec<WallabagEntry>) -> (r: Vec<Article>)
    requires
        forall|i: int| 0 <= i < entries@.len() ==> countable((#[trigger] entries@[i]).reading_time),
    ensures
        r@.len() == entries@.len(),
        forall|i: int| 0 <= i < r@.len() ==> is_article_of(entries@[i], (#[trigger] r@[i])@),
{
    let mut out: Vec<Article> = Vec::new();
    let mut i: usize = 0;
    while i < entries.len()
        invariant
            i <= entries@.len(),
            out@.len() == i,
            forall|k: int|
                0 <= k < entries@.len() ==> countable((#[trigger] entries@[k]).reading_time),
            forall|k: int| 0 <= k < i ==> is_article_of(entries@[k], (#[trigger] out@[k])@),
        decreases entries@.len() - i,
    {
        let ghost was = out@;
        let id = random_uuid();
        let at = now();
        let ghost text = id@;
        out.push(entries[i].to_article(id, at));
        assert(out@[i as int]@ == article_of(entries@[i as int], text, at));
        assert(forall|k: int| 0 <= k < i ==> out@[k] == was[k]);
        i += 1;
    }
    out
}

/// The content of an article: what the entry tells, and else a page with a link.
pub fn article_content(content: Option<String>, article: &Article) -> (r: ArticleContent)
    ensures
        r.html@ == (match content {
            Some(c) => c@,
            None => "<html><body><h1>"@ + crate::readlater::convert::html_text(article.title@)
                + "</h1><p><a href=\""@ + crate::readlater::convert::html_text(
                crate::readlater::convert::followable(article.url@),
            ) + "\">Read original</a></p></body></html>"@,
        }),
        r.images@.len() == 0,
        r.styles is None,
{
    let html = match content {
        Some(c) => c,
        None => {
            let mut out = "<html><body><h1>".to_owned();
            out.push_str(escape_html(article.title.as_str()).as_str());
            out.push_str("</h1><p><a href=\"");
            out.push_str(escape_html(safe_href(article.url.as_str()).as_str()).as_str());
            out.push_str("\">Read original</a></p></body></html>");
            out
        },
    };
    ArticleContent { html, images: Vec::new(), styles: None }
}

/// What Wallabag is told of a status: whether the entry is archived.
pub fn archive_flag(status: ReadStatus) -> (r: u8)
    ensures
        r == (if status == ReadStatus::Archived || status == ReadStatus::Read {
            1u8
        } else {
            0u8
        }),
{
    match status {
        ReadStatus::Archived | ReadStatus::Read => 1,
        ReadStatus::Unread | ReadStatus::InProgress => 0,
    }
}

/// The article that Wallabag answers an addition with, under an id, at a time.
pub open spec fn added_article(
    entry: int,
    url: Seq<char>,
    title: Seq<char>,
    reading_time: Option<u32>,
    tags: Seq<Seq<char>>,
    id: Seq<char>,
    at: Timestamp,
) -> crate::readlater::ArticleView {
    crate::readlater::ArticleView {
        word_count: words_for(reading_time),
        reading_time_minutes: reading_time,
        ..crate::readlater::pocket::added_article(
            ReadLaterProvider::Wallabag,
            crate::text::signed_decimal(entry),
            url,
            title,
            None,
            tags,
            id,
            at,
        )
    }
}

/// The article that Wallabag answers an addition with, under an id of its own.
pub fn added(
    entry: i64,
    url: String,
    title: String,
    reading_time: Option<u32>,
    tags: &Vec<String>,
) -> (r: Article)
    requires
        countable(reading_time),
    ensures
        exists|id: Seq<char>, at: Timestamp|
            id.len() == 36 && at.valid() && r@ == #[trigger] added_article(
                entry as int,
                url@,
                title@,
                reading_time,
                crate::text::texts(tags@),
                id,
                at,
            ),
{
    let id = random_uuid();
    let at = now();
    let ghost text = id@;
    let mut out = crate::readlater::pocket::new_article(
        ReadLaterProvider::Wallabag,
        decimal_i64(entry),
        url,
        title,
        None,
        copy(tags),
        id,
        at,
    );
    out.word_count = words(reading_time);
    out.reading_time_minutes = reading_time;
    assert(out@ == added_article(
        entry as int,
        url@,
        title@,
        reading_time,
        crate::text::texts(tags@),
        text,
        at,
    ));
    out
}

/// What wallabag tells of an entry is what the article is taken for: the beginning of its content
/// as its excerpt, and the words that its reading time stands for.
pub proof fn law_an_article_is_what_wallabag_tells(e: WallabagEntry, id: Seq<char>, at: Timestamp)
    requires
        countable(e.reading_time),
    ensures
        article_of(e, id, at).id == id,
        article_of(e, id, at).provider == ReadLaterProvider::Wallabag,
        e.id >= 0 ==> article_of(e, id, at).provider_id == crate::text::decimal(e.id as nat),
        article_of(e, id, at).url == e.url@,
        article_of(e, id, at).title == e.title@,
        e.content matches Some(c) ==> {
            &&& article_of(e, id, at).content == Some(c@)
            &&& article_of(e, id, at).excerpt matches Some(x) && x.is_prefix_of(c@) && (if c@.len()
                <= 300 {
                x.len() == c@.len()
            } else {
                x.len() == 300
            })
        },
        e.content is None ==> article_of(e, id, at).content is None && article_of(
            e,
            id,
            at,
        ).excerpt is None,
        article_of(e, id, at).reading_time_minutes == e.reading_time,
        e.reading_time matches Some(t) ==> (article_of(e, id, at).word_count matches Some(w) && w
            == t * 200),
        e.reading_time is None ==> article_of(e, id, at).word_count is None,
        article_of(e, id, at).tags.len() == e.tags@.len(),
        forall|i: int|
            0 <= i < e.tags@.len() ==> #[trigger] article_of(e, id, at).tags[i] == e.tags@[i]@,
        e.is_archived == 1 <==> article_of(e, id, at).status == ReadStatus::Archived,
        e.is_archived != 1 <==> article_of(e, id, at).status == ReadStatus::Unread,
        article_of(e, id, at).favorite <==> e.is_starred == 1,
        match crate::clock::rfc3339_value(e.created_at@) {
            Some((seconds, nanos)) => article_of(e, id, at).added_at == (Timestamp {
                seconds,
                nanos,
            }),
            None => article_of(e, id, at).added_at == at,
        },
        match crate::clock::rfc3339_value(e.updated_at@) {
            Some((seconds, nanos)) => article_of(e, id, at).updated_at == (Timestamp {
                seconds,
                nanos,
            }),
            None => article_of(e, id, at).updated_at == at,
        },
        article_of(e, id, at).read_at == (if e.is_archived == 1 {
            Some(article_of(e, id, at).updated_at)
        } else {
            None
        }),
        e.preview_picture matches Some(p) ==> article_of(e, id, at).image_url == Some(p@),
        !article_of(e, id, at).synced_to_device,
        article_of(e, id, at).document_id is None,
{
    if let Some(c) = e.content {
        let x = beginning(c@, 300);
        assert(x =~= c@.take(x.len() as int));
    }
}

/// A token is refreshed when there is none, from five minutes before it runs out on, and, where its
/// end is not known, whenever it can be.
pub proof fn law_when_a_token_is_refreshed(
    expires_at: Timestamp,
    refreshable: bool,
    at: Timestamp,
)
    requires
        at.valid(),
    ensures
        needs_refresh(false, Some(expires_at), refreshable, at),
        needs_refresh(false, None, refreshable, at),
        needs_refresh(true, None, refreshable, at) <==> refreshable,
        expires_at.seconds > at.seconds + 300 ==> !needs_refresh(
            true,
            Some(expires_at),
            refreshable,
            at,
        ),
        expires_at.seconds < at.seconds + 300 ==> needs_refresh(
            true,
            Some(expires_at),
            refreshable,
            at,
        ),
        expires_at.seconds == at.seconds + 300 ==> (needs_refresh(
            true,
            Some(expires_at),
            refreshable,
            at,
        ) <==> expires_at.nanos <= at.nanos),
{
}

/// A refresh token is used before a password, and each is sent with what it takes.
pub proof fn law_how_a_token_is_refreshed(c: ProviderConfig)
    ensures
        c matches ProviderConfig::Wallabag {
            client_id,
            client_secret,
            refresh_token,
            username,
            password,
            ..
        } ==> {
            &&& refresh_token is Some ==> first_grant_of(c) == Some(Grant::RefreshToken)
            &&& refresh_token is None && username is Some && password is Some ==> first_grant_of(c)
                == Some(Grant::Password)
            &&& refresh_token is None && (username is None || password is None) ==> first_grant_of(
                c,
            ) is None
            &&& can_refresh(c) <==> client_secret is Some && (refresh_token is Some || (username
                is Some && password is Some))
            &&& refresh_token matches Some(t) ==> grant_of(c, Grant::RefreshToken).contains(
                ("refresh_token"@, t@),
            )
            &&& username matches Some(u) ==> grant_of(c, Grant::Password).contains(
                ("username"@, u@),
            )
            &&& password matches Some(p) ==> grant_of(c, Grant::Password).contains(
                ("password"@, p@),
            )
            &&& client_secret matches Some(s) ==> grant_of(c, Grant::RefreshToken).contains(
                ("client_secret"@, s@),
            ) && grant_of(c, Grant::Password).contains(("client_secret"@, s@))
            &&& grant_of(c, Grant::RefreshToken).contains(("grant_type"@, "refresh_token"@))
            &&& grant_of(c, Grant::Password).contains(("grant_type"@, "password"@))
            &&& grant_of(c, Grant::RefreshToken).contains(("client_id"@, client_id@))
            &&& grant_of(c, Grant::Password).contains(("client_id"@, client_id@))
        },
        c !is Wallabag ==> first_grant_of(c) is None && !can_refresh(c),
{
    if let ProviderConfig::Wallabag {
        client_id,
        client_secret,
        refresh_token,
        username,
        password,
        ..
    } = c {
        let r = grant_of(c, Grant::RefreshToken);
        assert(r[0] == ("grant_type"@, "refresh_token"@));
        assert(r[1] == ("refresh_token"@, crate::text::or_empty(refresh_token)));
        assert(r[2] == ("client_id"@, client_id@));
        assert(r[3] == ("client_secret"@, crate::text::or_empty(client_secret)));
        let p = grant_of(c, Grant::Password);
        assert(p[0] == ("grant_type"@, "password"@));
        assert(p[1] == ("client_id"@, client_id@));
        assert(p[2] == ("client_secret"@, crate::text::or_empty(client_secret)));
        assert(p[3] == ("username"@, crate::text::or_empty(username)));
        assert(p[4] == ("password"@, crate::text::or_empty(password)));
    }
}

/// A fresh token replaces the old one and tells until when it is good, an hour where nothing else
/// is told; a refresh token stays unless another one came; and nothing else of the account changes.
pub proof fn law_a_fresh_token_replaces_the_old_one(
    c: ProviderConfig,
    token: WallabagToken,
    at: Timestamp,
)
    requires
        at.valid(),
        at.seconds + (match token.expires_in {
            Some(n) => n as int,
            None => 3600,
        }) <= i64::MAX,
        at.seconds + (match token.expires_in {
            Some(n) => n as int,
            None => 3600,
        }) >= i64::MIN,
    ensures
        c matches ProviderConfig::Wallabag {
            instance_url,
            client_id,
            client_secret,
            refresh_token,
            username,
            password,
            ..
        } ==> (with_token(c, token, at) matches ProviderConfig::Wallabag {
            instance_url: url,
            client_id: client,
            client_secret: secret,
            access_token: access,
            refresh_token: refresh,
            token_expires_at: end,
            username: user,
            password: pass,
        } && {
            &&& url == instance_url && client == client_id && secret == client_secret
            &&& user == username && pass == password
            &&& access == Some(token.access_token)
            &&& token.refresh_token is Some ==> refresh == token.refresh_token
            &&& token.refresh_token is None ==> refresh == refresh_token
            &&& end matches Some(t) && t.nanos == at.nanos && t.seconds == at.seconds + (
            match token.expires_in {
                Some(n) => n as int,
                None => 3600,
            })
        }),
        c !is Wallabag ==> with_token(c, token, at) == c,
{
}

} // verus!

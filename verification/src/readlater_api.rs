//! The read-later API: accounts, provider logins, articles and the outcome of syncs.

use vstd::prelude::*;
use vstd::string::*;

use crate::clock::Timestamp;
use crate::codec::url_encode;
use crate::error::ServerError;
use crate::readlater::manager::ReadLaterManager;
use crate::readlater::{
    available, prefixed, Article, ArticleQuery, OAuthCallback, OAuthState, ProviderAccount,
    ProviderConfig, ReadLaterError, ReadLaterProvider, ReadStatus, SyncResult, SyncSettings,
};
use crate::text::{decimal_u64};

verus! {

/// What a request is refused with where the read-later logic refuses it.
pub open spec fn refusal(e: crate::readlater::ReadLaterErrorView) -> crate::error::ServerErrorView {
    match e {
        crate::readlater::ReadLaterErrorView::ProviderNotFound(id) => {
            crate::error::ServerErrorView::NotFound(id)
        },
        crate::readlater::ReadLaterErrorView::ArticleNotFound(id) => {
            crate::error::ServerErrorView::NotFound(id)
        },
        crate::readlater::ReadLaterErrorView::AuthRequired(_) => {
            crate::error::ServerErrorView::Unauthorized
        },
        crate::readlater::ReadLaterErrorView::OAuth(msg) => crate::error::ServerErrorView::Internal(
            msg,
        ),
        crate::readlater::ReadLaterErrorView::Api(msg) => crate::error::ServerErrorView::Internal(
            msg,
        ),
        crate::readlater::ReadLaterErrorView::Conversion(msg) => {
            crate::error::ServerErrorView::Internal(msg)
        },
        crate::readlater::ReadLaterErrorView::Database(msg) => {
            crate::error::ServerErrorView::Database(msg)
        },
        crate::readlater::ReadLaterErrorView::Network(msg) => {
            crate::error::ServerErrorView::Internal("Network: "@ + msg)
        },
        crate::readlater::ReadLaterErrorView::RateLimited(secs) => {
            crate::error::ServerErrorView::Internal(
                "Rate limited, retry after "@ + crate::text::decimal(secs as nat) + " seconds"@,
            )
        },
        crate::readlater::ReadLaterErrorView::Io(e) => crate::error::ServerErrorView::Storage(e),
        crate::readlater::ReadLaterErrorView::Json(e) => crate::error::ServerErrorView::Json(e),
        crate::readlater::ReadLaterErrorView::Discontinued(msg) => {
            crate::error::ServerErrorView::BadRequest(msg)
        },
    }
}

/// What a request is refused with where the read-later logic refuses it.
pub fn server_error(e: ReadLaterError) -> (r: ServerError)
    ensures
        r@ == refusal(e@),
{
    match e {
        ReadLaterError::ProviderNotFound(id) => ServerError::NotFound(id),
        ReadLaterError::ArticleNotFound(id) => ServerError::NotFound(id),
        ReadLaterError::AuthRequired(_) => ServerError::Unauthorized,
        ReadLaterError::OAuth(msg) => ServerError::Internal(msg),
        ReadLaterError::Api(msg) => ServerError::Internal(msg),
        ReadLaterError::Conversion(msg) => ServerError::Internal(msg),
        ReadLaterError::Database(msg) => ServerError::Database(msg),
        ReadLaterError::Network(msg) => ServerError::Internal(
            prefixed("Network: ", msg.as_str()),
        ),
        ReadLaterError::RateLimited(secs) => {
            let mut msg = prefixed("Rate limited, retry after ", decimal_u64(secs).as_str());
            msg.push_str(" seconds");
            ServerError::Internal(msg)
        },
        ReadLaterError::Io(e) => ServerError::Storage(e),
        ReadLaterError::Json(e) => ServerError::Json(e),
        ReadLaterError::Discontinued(msg) => ServerError::BadRequest(msg),
    }
}

#[derive(Debug)]
pub struct AddAccountRequest {
    pub name: String,
    pub provider: ReadLaterProvider,
    pub config: ProviderConfig,
    pub sync_settings: Option<SyncSettings>,
}

#[derive(Debug)]
pub struct UpdateAccountRequest {
    pub name: Option<String>,
    pub enabled: Option<bool>,
    pub sync_settings: Option<SyncSettings>,
}

#[derive(Debug)]
pub struct StartOAuthRequest {
    pub provider: ReadLaterProvider,
    pub redirect_uri: String,
    pub config: Option<ProviderConfig>,
}

#[derive(Debug)]
pub struct OAuthResponse {
    pub state_id: String,
    pub auth_url: String,
}

#[derive(Debug)]
pub struct CompleteOAuthRequest {
    pub state_id: String,
    pub callback: OAuthCallback,
    pub account_name: String,
}

#[derive(Debug)]
pub struct UpdateArticleRequest {
    pub status: Option<ReadStatus>,
    pub favorite: Option<bool>,
    pub tags: Option<Vec<String>>,
    pub document_id: Option<String>,
    pub synced_to_device: Option<bool>,
}

/// Client-facing view of an account. Deliberately carries no `ProviderConfig`, so stored credentials
/// are never returned to clients.
#[derive(Debug)]
pub struct AccountResponse {
    pub id: String,
    pub name: String,
    pub provider: ReadLaterProvider,
    pub enabled: bool,
    pub authenticated: bool,
    pub sync_settings: SyncSettings,
    pub last_sync: Option<String>,
}

#[derive(Debug)]
pub struct SyncAllResponse {
    /// Articles the providers returned.
    pub total_fetched: u32,
    /// Articles put on the device as new documents.
    pub total_synced: u32,
    pub total_errors: usize,
    /// One entry per account synced.
    pub results: Vec<SyncResult>,
    /// Accounts skipped because a sync of them was already running.
    pub already_running: Vec<String>,
}

#[derive(Debug)]
pub struct AccountListResponse {
    pub accounts: Vec<AccountResponse>,
}

#[derive(Debug)]
pub struct ArticleListResponse {
    pub articles: Vec<Article>,
    pub total: usize,
}

/// A point in time as text.
pub open spec fn time_text(t: Option<Timestamp>) -> Option<Seq<char>> {
    match t {
        Some(t) => Some(crate::clock::rfc3339(t.seconds, t.nanos)),
        None => None,
    }
}

/// Whether `r` is what a client is told of an account.
pub open spec fn tells(r: AccountResponse, a: ProviderAccount) -> bool {
    &&& r.id == a.id
    &&& r.name == a.name
    &&& r.provider == a.provider
    &&& r.enabled == a.enabled
    &&& r.authenticated == crate::readlater::authenticated(a.config)
    &&& crate::readlater::same_settings(r.sync_settings, a.sync_settings)
    &&& crate::text::text_of(r.last_sync) == time_text(a.last_sync)
}

/// Whether the time of an account's last sync, if any, can be told.
pub open spec fn tellable(a: ProviderAccount) -> bool {
    a.last_sync matches Some(t) ==> t.valid()
}

/// What a client is told of an account does not depend on its credentials, but for whether it has
/// those that its provider needs.
pub proof fn law_responses_hold_no_credentials(
    r: AccountResponse,
    a: ProviderAccount,
    secrets: crate::readlater::ProviderSecrets,
)
    requires
        crate::readlater::authenticated(crate::readlater::with_secrets(a.config, secrets))
            == crate::readlater::authenticated(a.config),
    ensures
        tells(r, a) <==> tells(
            r,
            (ProviderAccount { config: crate::readlater::with_secrets(a.config, secrets), ..a }),
        ),
{
}

impl AccountResponse {
    /// What a client is told of an account.
    pub fn of(a: &ProviderAccount) -> (r: Self)
        requires
            tellable(*a),
        ensures
            tells(r, *a),
    {
        AccountResponse {
            id: a.id.clone(),
            name: a.name.clone(),
            provider: a.provider,
            enabled: a.enabled,
            authenticated: a.config.is_authenticated(),
            sync_settings: a.sync_settings.clone(),
            last_sync: match a.last_sync {
                Some(t) => Some(crate::clock::to_rfc3339(t)),
                None => None,
            },
        }
    }
}

/// Whether what is told of the accounts can be told.
pub open spec fn all_tellable(m: ReadLaterManager) -> bool {
    forall|i: int|
        0 <= i < m.accounts.entries@.len() ==> tellable((#[trigger] m.accounts.entries@[i]).1)
}

/// All accounts, as clients are told of them.
pub fn list_accounts(m: &ReadLaterManager) -> (r: AccountListResponse)
    requires
        all_tellable(*m),
    ensures
        r.accounts@.len() == m.accounts.entries@.len(),
        forall|i: int|
            0 <= i < r.accounts@.len() ==> tells(
                #[trigger] r.accounts@[i],
                m.accounts.entries@[i].1,
            ),
{
    let mut accounts: Vec<AccountResponse> = Vec::new();
    let mut i: usize = 0;
    while i < m.accounts.entries.len()
        invariant
            i <= m.accounts.entries@.len(),
            all_tellable(*m),
            accounts@.len() == i,
            forall|k: int|
                0 <= k < i ==> tells(#[trigger] accounts@[k], m.accounts.entries@[k].1),
        decreases m.accounts.entries@.len() - i,
    {
        accounts.push(AccountResponse::of(&m.accounts.entries[i].1));
        i += 1;
    }
    AccountListResponse { accounts }
}

/// Whether `a` is the account that was asked for, as it is at first.
pub open spec fn is_new_account(
    a: ProviderAccount,
    id: String,
    name: String,
    provider: ReadLaterProvider,
    config: ProviderConfig,
    settings: Option<SyncSettings>,
    at: Timestamp,
) -> bool {
    &&& a.id == id
    &&& a.name == name
    &&& a.provider == provider
    &&& a.enabled
    &&& a.config == config
    &&& match settings {
        Some(s) => a.sync_settings == s,
        None => crate::readlater::default_settings(a.sync_settings),
    }
    &&& a.last_sync is None
    &&& a.created_at == at
}

/// An account as it is at first.
pub fn new_account(
    id: String,
    name: String,
    provider: ReadLaterProvider,
    config: ProviderConfig,
    settings: Option<SyncSettings>,
    at: Timestamp,
) -> (r: ProviderAccount)
    ensures
        is_new_account(r, id, name, provider, config, settings, at),
{
    ProviderAccount {
        id,
        name,
        provider,
        enabled: true,
        config,
        sync_settings: match settings {
            Some(s) => s,
            None => SyncSettings::default(),
        },
        last_sync: None,
        created_at: at,
    }
}

/// Whether all that changed is that an account as it is at first was stored under its id.
pub open spec fn account_added(
    was: ReadLaterManager,
    now: ReadLaterManager,
    id: String,
    name: String,
    provider: ReadLaterProvider,
    config: ProviderConfig,
    settings: Option<SyncSettings>,
) -> bool {
    &&& now.articles == was.articles
    &&& id@.len() == 36
    &&& !was.accounts@.contains_key(id@)
    &&& now.accounts@.contains_key(id@)
    &&& now.accounts@ == was.accounts@.insert(id@, now.accounts@[id@])
    &&& is_new_account(
        now.accounts@[id@],
        id,
        name,
        provider,
        config,
        settings,
        now.accounts@[id@].created_at,
    )
}

/// Why no account is added: its provider is discontinued, or an account has the id that was drawn.
pub open spec fn not_added(
    e: crate::error::ServerErrorView,
    provider: ReadLaterProvider,
    m: ReadLaterManager,
) -> bool {
    if provider == ReadLaterProvider::Omnivore {
        e == crate::error::ServerErrorView::BadRequest(crate::readlater::OMNIVORE_DISCONTINUED@)
    } else {
        &&& e == crate::error::ServerErrorView::Database(crate::readlater::manager::ID_TAKEN@)
        &&& exists|id: Seq<char>| id.len() == 36 && #[trigger] m.accounts@.contains_key(id)
    }
}

/// Add an account under a fresh id, which is handed out.
pub fn add_account(m: &mut ReadLaterManager, req: AddAccountRequest) -> (r: Result<
    String,
    ServerError,
>)
    requires
        old(m).wf(),
    ensures
        final(m).wf(),
        match r {
            Ok(id) => req.provider != ReadLaterProvider::Omnivore && account_added(
                *old(m),
                *final(m),
                id,
                req.name,
                req.provider,
                req.config,
                req.sync_settings,
            ),
            Err(e) => not_added(e@, req.provider, *old(m)) && *final(m) == *old(m),
        },
{
    let id = crate::codec::random_uuid();
    let at = crate::clock::now();
    let account = new_account(
        id.clone(),
        req.name,
        req.provider,
        req.config,
        req.sync_settings,
        at,
    );
    match m.add_account(account) {
        Ok(_) => Ok(id),
        Err(e) => Err(server_error(e)),
    }
}

/// An account, as a client is told of it.
pub fn get_account(m: &ReadLaterManager, id: &str) -> (r: Result<AccountResponse, ServerError>)
    requires
        m.wf(),
        m.accounts@.contains_key(id@) ==> tellable(m.accounts@[id@]),
    ensures
        match r {
            Ok(a) => m.accounts@.contains_key(id@) && tells(a, m.accounts@[id@]),
            Err(e) => !m.accounts@.contains_key(id@) && e@
                == crate::error::ServerErrorView::NotFound(id@),
        },
{
    match m.get_account(id) {
        Some(a) => Ok(AccountResponse::of(a)),
        None => Err(ServerError::NotFound(id.to_owned())),
    }
}

/// An account with the changes that are asked for.
pub open spec fn changed_account(a: ProviderAccount, req: UpdateAccountRequest) -> ProviderAccount {
    ProviderAccount {
        name: match req.name {
            Some(name) => name,
            None => a.name,
        },
        enabled: match req.enabled {
            Some(enabled) => enabled,
            None => a.enabled,
        },
        sync_settings: match req.sync_settings {
            Some(settings) => settings,
            None => a.sync_settings,
        },
        ..a
    }
}

/// Change an account: what the request leaves out stays.
pub fn update_account(m: &mut ReadLaterManager, id: &str, req: UpdateAccountRequest) -> (r: Result<
    (),
    ServerError,
>)
    requires
        old(m).wf(),
    ensures
        final(m).wf(),
        final(m).articles == old(m).articles,
        match r {
            Ok(_) => old(m).accounts@.contains_key(id@) && final(m).accounts@
                == old(m).accounts@.insert(id@, changed_account(old(m).accounts@[id@], req)),
            Err(e) => !old(m).accounts@.contains_key(id@) && e@
                == crate::error::ServerErrorView::NotFound(id@) && *final(m) == *old(m),
        },
{
    match m.accounts.get_mut(id) {
        None => Err(ServerError::NotFound(id.to_owned())),
        Some(account) => {
            if let Some(name) = req.name {
                account.name = name;
            }
            if let Some(enabled) = req.enabled {
                account.enabled = enabled;
            }
            if let Some(settings) = req.sync_settings {
                account.sync_settings = settings;
            }
            Ok(())
        },
    }
}

/// Where the owner of an account goes to grant access to it.
pub open spec fn auth_url_of(
    req: StartOAuthRequest,
    state: OAuthState,
) -> Result<Seq<char>, crate::error::ServerErrorView> {
    let redirect = crate::codec::percent_encoded(req.redirect_uri@);
    match req.provider {
        ReadLaterProvider::Pocket => Ok(
            "https://getpocket.com/auth/authorize?request_token="@ + crate::text::or_empty(
                state.request_token,
            ) + "&redirect_uri="@ + redirect,
        ),
        ReadLaterProvider::Wallabag => match req.config {
            Some(ProviderConfig::Wallabag { instance_url, client_id, .. }) => Ok(
                instance_url@ + "/oauth/v2/auth?client_id="@ + client_id@ + "&redirect_uri="@
                    + redirect + "&response_type=code"@,
            ),
            _ => Err(
                crate::error::ServerErrorView::Internal(
                    "Wallabag requires instance_url and client_id"@,
                ),
            ),
        },
        ReadLaterProvider::Instapaper => Ok("xauth://instapaper"@),
        ReadLaterProvider::Omnivore => Err(
            crate::error::ServerErrorView::BadRequest(crate::readlater::OMNIVORE_DISCONTINUED@),
        ),
    }
}

/// Where the owner of an account goes to grant access to it.
pub fn auth_url(req: &StartOAuthRequest, state: &OAuthState) -> (r: Result<String, ServerError>)
    ensures
        match r {
            Ok(url) => auth_url_of(*req, *state) matches Ok(u) && url@ == u,
            Err(e) => auth_url_of(*req, *state) matches Err(f) && e@ == f,
        },
{
    match req.provider {
        ReadLaterProvider::Pocket => {
            let mut url = "https://getpocket.com/auth/authorize?request_token=".to_owned();
            if let Some(token) = &state.request_token {
                url.push_str(token.as_str());
            }
            proof {
                assert(url@ =~= "https://getpocket.com/auth/authorize?request_token="@
                    + crate::text::or_empty(state.request_token));
            }
            url.push_str("&redirect_uri=");
            url.push_str(url_encode(req.redirect_uri.as_str()).as_str());
            Ok(url)
        },
        ReadLaterProvider::Wallabag => match &req.config {
            Some(ProviderConfig::Wallabag { instance_url, client_id, .. }) => {
                let mut url = instance_url.clone();
                url.push_str("/oauth/v2/auth?client_id=");
                url.push_str(client_id.as_str());
                url.push_str("&redirect_uri=");
                url.push_str(url_encode(req.redirect_uri.as_str()).as_str());
                url.push_str("&response_type=code");
                Ok(url)
            },
            _ => Err(
                ServerError::Internal("Wallabag requires instance_url and client_id".to_owned()),
            ),
        },
        ReadLaterProvider::Instapaper => Ok("xauth://instapaper".to_owned()),
        ReadLaterProvider::Omnivore => match available(ReadLaterProvider::Omnivore) {
            Ok(_) => Ok(String::new()),
            Err(e) => Err(server_error(e)),
        },
    }
}

/// The flow that a login belongs to; the id that the client gives is that of a flow, or the login is
/// refused.
pub fn flow_of(found: Option<OAuthState>) -> (r: Result<OAuthState, ServerError>)
    ensures
        match r {
            Ok(s) => found == Some(s),
            Err(e) => found is None && e@ == crate::error::ServerErrorView::Internal(
                "Invalid OAuth state"@,
            ),
        },
{
    match found {
        Some(s) => Ok(s),
        None => Err(ServerError::Internal("Invalid OAuth state".to_owned())),
    }
}

/// Add the account that a login gave access to.
pub fn complete_oauth(
    m: &mut ReadLaterManager,
    account_name: String,
    state: &OAuthState,
    config: ProviderConfig,
) -> (r: Result<String, ServerError>)
    requires
        old(m).wf(),
    ensures
        final(m).wf(),
        match r {
            Ok(id) => state.provider != ReadLaterProvider::Omnivore && account_added(
                *old(m),
                *final(m),
                id,
                account_name,
                state.provider,
                config,
                None,
            ),
            Err(e) => not_added(e@, state.provider, *old(m)) && *final(m) == *old(m),
        },
{
    add_account(
        m,
        AddAccountRequest {
            name: account_name,
            provider: state.provider,
            config,
            sync_settings: None,
        },
    )
}

/// The articles that a query asks for, and how many they are.
pub fn list_articles(m: &ReadLaterManager, query: &ArticleQuery) -> (r: ArticleListResponse)
    ensures
        crate::readlater::article_views(r.articles@) == crate::readlater::manager::answer(
            *query,
            crate::readlater::manager::in_table(m.articles),
        ),
        r.total == r.articles@.len(),
{
    let articles = m.query_articles(query);
    let total: usize = articles.len();
    ArticleListResponse { articles, total }
}

pub fn get_article(m: &ReadLaterManager, id: &str) -> (r: Result<Article, ServerError>)
    requires
        m.wf(),
    ensures
        ({
            let all = crate::readlater::manager::articles_of(m.articles);
            match r {
                Ok(a) => all.contains_key(id@) && a@ == all[id@],
                Err(e) => !all.contains_key(id@) && e@ == crate::error::ServerErrorView::NotFound(
                    id@,
                ),
            }
        }),
{
    match m.get_article(id) {
        Some(a) => Ok(a),
        None => Err(ServerError::NotFound(id.to_owned())),
    }
}

/// An article with the changes that are asked for at a time.
pub open spec fn changed_article(
    a: crate::readlater::ArticleView,
    req: UpdateArticleRequest,
    at: Timestamp,
) -> crate::readlater::ArticleView {
    crate::readlater::ArticleView {
        status: match req.status {
            Some(s) => s,
            None => a.status,
        },
        read_at: if req.status == Some(ReadStatus::Read) {
            Some(at)
        } else {
            a.read_at
        },
        favorite: match req.favorite {
            Some(f) => f,
            None => a.favorite,
        },
        tags: match req.tags {
            Some(tags) => crate::text::texts(tags@),
            None => a.tags,
        },
        document_id: match req.document_id {
            Some(d) => Some(d@),
            None => a.document_id,
        },
        synced_to_device: match req.synced_to_device {
            Some(s) => s,
            None => a.synced_to_device,
        },
        last_sync: if req.synced_to_device == Some(true) {
            Some(at)
        } else {
            a.last_sync
        },
        updated_at: at,
        ..a
    }
}

/// An article with the changes that are asked for at a time.
pub fn with_changes(a: Article, req: UpdateArticleRequest, at: Timestamp) -> (r: Article)
    ensures
        r@ == changed_article(a@, req, at),
{
    let mut article = a;
    if let Some(status) = req.status {
        article.status = status;
        if status == ReadStatus::Read {
            article.read_at = Some(at);
        }
    }
    if let Some(favorite) = req.favorite {
        article.favorite = favorite;
    }
    if let Some(tags) = req.tags {
        article.tags = tags;
    }
    if let Some(id) = req.document_id {
        article.document_id = Some(id);
    }
    if let Some(synced) = req.synced_to_device {
        article.synced_to_device = synced;
        if synced {
            article.last_sync = Some(at);
        }
    }
    article.updated_at = at;
    assert(article@ =~= changed_article(a@, req, at));
    article
}

/// Change an article now.
pub fn update_article(m: &mut ReadLaterManager, id: &str, req: UpdateArticleRequest) -> (r: Result<
    Article,
    ServerError,
>)
    requires
        old(m).wf(),
    ensures
        final(m).wf(),
        final(m).accounts == old(m).accounts,
        ({
            let all = crate::readlater::manager::articles_of(old(m).articles);
            match r {
                Ok(a) => all.contains_key(id@) && exists|at: Timestamp|
                    a@ == #[trigger] changed_article(all[id@], req, at)
                        && crate::readlater::manager::articles_of(final(m).articles) == all.insert(
                        id@,
                        a@,
                    ),
                Err(e) => !all.contains_key(id@) && e@ == crate::error::ServerErrorView::NotFound(
                    id@,
                ) && *final(m) == *old(m),
            }
        }),
{
    let ghost all = crate::readlater::manager::articles_of(m.articles);
    match get_article(m, id) {
        Err(e) => Err(e),
        Ok(found) => {
            let at = crate::clock::now();
            let article = with_changes(found, req, at);
            assert(crate::readlater::manager::stored_at(
                all,
                id@,
                article.provider,
                article.provider_id@,
            ));
            m.save_article(&article);
            proof {
                let now = crate::readlater::manager::articles_of(m.articles);
                let existing = choose|existing: Option<Seq<char>>| #[trigger]
                    crate::readlater::manager::is_existing(all, article@, existing) && now
                        == all.insert(
                        crate::readlater::manager::merged(all, article@, existing).id,
                        crate::readlater::manager::merged(all, article@, existing),
                    );
                if let Some(i) = existing {
                    assert(all.contains_key(i) && all.contains_key(id@));
                    assert(i == id@);
                }
                assert(article@ == changed_article(all[id@], req, at));
            }
            Ok(article)
        },
    }
}

/// The articles that syncs fetched, in all.
pub open spec fn fetched(results: Seq<SyncResult>) -> int
    decreases results.len(),
{
    if results.len() == 0 {
        0
    } else {
        fetched(results.drop_last()) + results.last().articles_fetched
    }
}

/// The articles that syncs put on the device, in all.
pub open spec fn synced(results: Seq<SyncResult>) -> int
    decreases results.len(),
{
    if results.len() == 0 {
        0
    } else {
        synced(results.drop_last()) + results.last().articles_synced
    }
}

/// The errors of syncs, in all.
pub open spec fn failed(results: Seq<SyncResult>) -> int
    decreases results.len(),
{
    if results.len() == 0 {
        0
    } else {
        failed(results.drop_last()) + results.last().errors@.len()
    }
}

proof fn lemma_totals_grow(results: Seq<SyncResult>, n: int)
    requires
        0 <= n <= results.len(),
    ensures
        0 <= fetched(results.take(n)) <= fetched(results),
        0 <= synced(results.take(n)) <= synced(results),
        0 <= failed(results.take(n)) <= failed(results),
    decreases results.len(),
{
    if results.len() > 0 {
        if n < results.len() {
            lemma_totals_grow(results.drop_last(), n);
            assert(results.drop_last().take(n) =~= results.take(n));
        } else {
            lemma_totals_grow(results.drop_last(), n - 1);
            assert(results.drop_last().take(n - 1) =~= results.drop_last());
            assert(results.take(n) =~= results);
        }
    } else {
        assert(results.take(n) =~= results);
    }
}

impl SyncAllResponse {
    /// What a sync of all accounts is answered: the totals, and each account's result.
    pub fn of(results: Vec<SyncResult>, already_running: Vec<String>) -> (r: Self)
        requires
            fetched(results@) <= u32::MAX,
            synced(results@) <= u32::MAX,
            failed(results@) <= usize::MAX,
        ensures
            r.total_fetched == fetched(results@),
            r.total_synced == synced(results@),
            r.total_errors == failed(results@),
            r.results == results,
            r.already_running == already_running,
    {
        let mut total_fetched: u32 = 0;
        let mut total_synced: u32 = 0;
        let mut total_errors: usize = 0;
        let mut i: usize = 0;
        assert(results@.take(0) =~= Seq::empty());
        while i < results.len()
            invariant
                i <= results@.len(),
                total_fetched == fetched(results@.take(i as int)),
                total_synced == synced(results@.take(i as int)),
                total_errors == failed(results@.take(i as int)),
                fetched(results@) <= u32::MAX,
                synced(results@) <= u32::MAX,
                failed(results@) <= usize::MAX,
            decreases results@.len() - i,
        {
            proof {
                assert(results@.take(i as int + 1).drop_last() =~= results@.take(i as int));
                lemma_totals_grow(results@, i as int + 1);
            }
            total_fetched = total_fetched + results[i].articles_fetched;
            total_synced = total_synced + results[i].articles_synced;
            total_errors = total_errors + results[i].errors.len();
            i += 1;
        }
        assert(results@.take(i as int) =~= results@);
        SyncAllResponse { total_fetched, total_synced, total_errors, results, already_running }
    }
}

/// A failure is told with the status that it calls for: what is not there is not found, what takes
/// a login is not authorized, what is gone for good is a bad request, and the rest is the server's.
pub proof fn law_failures_have_their_status(
    e: crate::readlater::ReadLaterErrorView,
)
    ensures
        e is ProviderNotFound || e is ArticleNotFound ==> crate::error::status_code(refusal(e))
            == 404,
        e is AuthRequired ==> crate::error::status_code(refusal(e)) == 401,
        e is Discontinued ==> crate::error::status_code(refusal(e)) == 400,
        e is OAuth || e is Api || e is RateLimited || e is Conversion || e is Database || e
            is Network || e is Io || e is Json ==> crate::error::status_code(refusal(e)) == 500,
{
}

/// A change of an account changes what the request names, and nothing else.
pub proof fn law_a_request_changes_what_it_names(a: ProviderAccount, req: UpdateAccountRequest)
    ensures
        changed_account(a, req).id == a.id,
        changed_account(a, req).provider == a.provider,
        changed_account(a, req).config == a.config,
        changed_account(a, req).last_sync == a.last_sync,
        changed_account(a, req).created_at == a.created_at,
        req.name matches Some(n) ==> changed_account(a, req).name == n,
        req.name is None ==> changed_account(a, req).name == a.name,
        req.enabled matches Some(e) ==> changed_account(a, req).enabled == e,
        req.enabled is None ==> changed_account(a, req).enabled == a.enabled,
        req.sync_settings matches Some(s) ==> changed_account(a, req).sync_settings == s,
        req.sync_settings is None ==> changed_account(a, req).sync_settings == a.sync_settings,
{
}

/// A change of an article changes what the request names, and when it was changed; an article that
/// is marked as read was read at that moment, and one that is marked as on the device was synced
/// then.
pub proof fn law_a_request_changes_an_article(
    a: crate::readlater::ArticleView,
    req: UpdateArticleRequest,
    at: Timestamp,
)
    ensures
        ({
            let now = changed_article(a, req, at);
            &&& now.id == a.id && now.provider == a.provider && now.provider_id == a.provider_id
            &&& now.url == a.url && now.title == a.title && now.added_at == a.added_at
            &&& now.updated_at == at
            &&& req.status matches Some(s) ==> now.status == s
            &&& req.status is None ==> now.status == a.status && now.read_at == a.read_at
            &&& req.status is Some && req.status->0 is Read ==> now.read_at == Some(at)
            &&& req.status is Some && !(req.status->0 is Read) ==> now.read_at == a.read_at
            &&& req.favorite matches Some(f) ==> now.favorite == f
            &&& req.favorite is None ==> now.favorite == a.favorite
            &&& req.tags is None ==> now.tags == a.tags
            &&& req.tags matches Some(t) ==> now.tags.len() == t@.len()
            &&& req.document_id matches Some(d) ==> now.document_id == Some(d@)
            &&& req.document_id is None ==> now.document_id == a.document_id
            &&& req.synced_to_device matches Some(s) ==> now.synced_to_device == s
            &&& req.synced_to_device is None ==> now.synced_to_device == a.synced_to_device
            &&& now.last_sync == (if req.synced_to_device == Some(true) {
                Some(at)
            } else {
                a.last_sync
            })
        }),
        req.tags matches Some(t) ==> forall|i: int|
            0 <= i < t@.len() ==> #[trigger] changed_article(a, req, at).tags[i] == t@[i]@,
{
}

/// What is told of all accounts together is the sum of what is told of each.
pub proof fn law_totals_add_up(results: Seq<SyncResult>, last: SyncResult)
    ensures
        fetched(Seq::empty()) == 0,
        synced(Seq::empty()) == 0,
        failed(Seq::empty()) == 0,
        fetched(results.push(last)) == fetched(results) + last.articles_fetched,
        synced(results.push(last)) == synced(results) + last.articles_synced,
        failed(results.push(last)) == failed(results) + last.errors@.len(),
{
    assert(results.push(last).drop_last() =~= results);
}

/// A new account is what was asked for, enabled, and not synced yet.
pub proof fn law_a_new_account_is_what_was_asked_for(
    was: ReadLaterManager,
    now: ReadLaterManager,
    id: String,
    name: String,
    provider: ReadLaterProvider,
    config: ProviderConfig,
    settings: Option<SyncSettings>,
    other: Seq<char>,
)
    requires
        account_added(was, now, id, name, provider, config, settings),
    ensures
        !was.accounts@.contains_key(id@),
        now.accounts@.contains_key(id@),
        now.accounts@[id@].id == id,
        now.accounts@[id@].name == name,
        now.accounts@[id@].provider == provider,
        now.accounts@[id@].config == config,
        now.accounts@[id@].enabled,
        now.accounts@[id@].last_sync is None,
        settings matches Some(s) ==> now.accounts@[id@].sync_settings == s,
        settings is None ==> {
            &&& now.accounts@[id@].sync_settings.auto_sync
            &&& now.accounts@[id@].sync_settings.sync_interval_minutes == 60
            &&& now.accounts@[id@].sync_settings.max_articles == 50
            &&& now.accounts@[id@].sync_settings.convert_format
                == crate::readlater::ArticleFormat::Epub
            &&& now.accounts@[id@].sync_settings.sync_read_status
        },
        other != id@ ==> now.accounts@.contains_key(other) == was.accounts@.contains_key(other),
        other != id@ && was.accounts@.contains_key(other) ==> now.accounts@[other]
            == was.accounts@[other],
        now.articles == was.articles,
{
}

/// The address that a login starts at is that of the provider, and comes back to where it was asked
/// to.
pub proof fn law_a_login_starts_at_its_provider(req: StartOAuthRequest, state: OAuthState)
    ensures
        req.provider is Pocket ==> (state.request_token matches Some(t) ==> auth_url_of(req, state)
            == Ok::<Seq<char>, crate::error::ServerErrorView>(
            "https://getpocket.com/auth/authorize?request_token="@ + t@ + "&redirect_uri="@
                + crate::codec::percent_encoded(req.redirect_uri@),
        )),
        req.provider is Wallabag ==> match req.config {
            Some(ProviderConfig::Wallabag { instance_url, client_id, .. }) => auth_url_of(req, state)
                == Ok::<Seq<char>, crate::error::ServerErrorView>(
                instance_url@ + "/oauth/v2/auth?client_id="@ + client_id@ + "&redirect_uri="@
                    + crate::codec::percent_encoded(req.redirect_uri@) + "&response_type=code"@,
            ),
            _ => auth_url_of(req, state) is Err,
        },
        req.provider is Omnivore ==> (auth_url_of(req, state) matches Err(e) && e is BadRequest),
        req.provider is Instapaper ==> auth_url_of(req, state) is Ok,
{
}

/// What is told of an account is what it is, but for its credentials.
pub proof fn law_an_account_is_told_as_it_is(r: AccountResponse, a: ProviderAccount)
    requires
        tells(r, a),
    ensures
        r.id == a.id && r.name == a.name && r.provider == a.provider && r.enabled == a.enabled,
        r.authenticated == crate::readlater::authenticated(a.config),
        r.sync_settings.max_articles == a.sync_settings.max_articles,
        r.sync_settings.convert_format == a.sync_settings.convert_format,
        r.sync_settings.auto_sync == a.sync_settings.auto_sync,
        r.sync_settings.sync_interval_minutes == a.sync_settings.sync_interval_minutes,
        r.sync_settings.sync_read_status == a.sync_settings.sync_read_status,
        r.sync_settings.tag_filters@ == a.sync_settings.tag_filters@,
        r.sync_settings.include_favorites_only == a.sync_settings.include_favorites_only,
        r.sync_settings.include_archived == a.sync_settings.include_archived,
        r.sync_settings.folder_id == a.sync_settings.folder_id,
        a.last_sync matches Some(t) ==> (r.last_sync matches Some(s) && s@ == crate::clock::rfc3339(
            t.seconds,
            t.nanos,
        )),
        a.last_sync is None ==> r.last_sync is None,
{
}

/// An account is not added for two reasons only: its provider is gone, or its id is taken.
pub proof fn law_why_an_account_is_not_added(
    e: crate::error::ServerErrorView,
    provider: ReadLaterProvider,
    m: ReadLaterManager,
)
    requires
        not_added(e, provider, m),
    ensures
        provider is Omnivore <==> e is BadRequest,
        provider !is Omnivore ==> e is Database && exists|id: Seq<char>|
            id.len() == 36 && #[trigger] m.accounts@.contains_key(id),
{
}

} // verus!

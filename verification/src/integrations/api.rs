//! The REST API for managing cloud storage integrations: what requests ask for, what is kept
//! between them, and what they are answered.

use vstd::prelude::*;
use vstd::string::*;

use crate::integrations::oauth::{validate_state, OAuthConfig, OAuthToken, PkceFlow};
use crate::integrations::sync::{SyncConfig, SyncDirection, SyncResult, SyncState, SyncStatus};
use crate::integrations::ProviderType;
use crate::table::Table;
use crate::text::{has_char, same, split, to_chars, to_lower};

verus! {

/// A request that is refused: the HTTP status and the reason.
#[derive(Debug)]
pub struct Refusal {
    pub status: u16,
    pub reason: String,
}

/// Whether a refusal has a status and a reason.
pub open spec fn refuses(r: Refusal, status: u16, reason: Seq<char>) -> bool {
    r.status == status && r.reason@ == reason
}

fn refusal(status: u16, reason: &str) -> (r: Refusal)
    ensures
        refuses(r, status, reason@),
{
    Refusal { status, reason: reason.to_owned() }
}

/// One value for each provider, at most.
#[derive(Debug)]
pub struct Slots<T> {
    pub google_drive: Option<T>,
    pub dropbox: Option<T>,
    pub onedrive: Option<T>,
}

impl<T> Slots<T> {
    /// The value of a provider.
    pub open spec fn of(self, p: ProviderType) -> Option<T> {
        match p {
            ProviderType::GoogleDrive => self.google_drive,
            ProviderType::Dropbox => self.dropbox,
            ProviderType::OneDrive => self.onedrive,
        }
    }

    /// These values, with another for a provider.
    pub open spec fn but(self, p: ProviderType, v: Option<T>) -> Slots<T> {
        match p {
            ProviderType::GoogleDrive => Slots { google_drive: v, ..self },
            ProviderType::Dropbox => Slots { dropbox: v, ..self },
            ProviderType::OneDrive => Slots { onedrive: v, ..self },
        }
    }

    pub fn new() -> (r: Self)
        ensures
            r == (Slots { google_drive: None::<T>, dropbox: None::<T>, onedrive: None::<T> }),
    {
        Slots { google_drive: None, dropbox: None, onedrive: None }
    }

    pub fn get(&self, p: ProviderType) -> (r: Option<&T>)
        ensures
            match r {
                Some(v) => self.of(p) == Some(*v),
                None => self.of(p) is None,
            },
    {
        let slot = match p {
            ProviderType::GoogleDrive => &self.google_drive,
            ProviderType::Dropbox => &self.dropbox,
            ProviderType::OneDrive => &self.onedrive,
        };
        match slot {
            Some(v) => Some(v),
            None => None,
        }
    }

    pub fn set(&mut self, p: ProviderType, v: T)
        ensures
            *final(self) == old(self).but(p, Some(v)),
    {
        match p {
            ProviderType::GoogleDrive => {
                self.google_drive = Some(v);
            },
            ProviderType::Dropbox => {
                self.dropbox = Some(v);
            },
            ProviderType::OneDrive => {
                self.onedrive = Some(v);
            },
        }
    }

    pub fn take(&mut self, p: ProviderType) -> (r: Option<T>)
        ensures
            r == old(self).of(p),
            *final(self) == old(self).but(p, None),
    {
        match p {
            ProviderType::GoogleDrive => self.google_drive.take(),
            ProviderType::Dropbox => self.dropbox.take(),
            ProviderType::OneDrive => self.onedrive.take(),
        }
    }
}

/// What is kept between requests.
pub struct IntegrationState {
    /// Active OAuth flows (state to flow).
    pub oauth_flows: Table<PkceFlow>,
    /// Stored tokens.
    pub tokens: Slots<OAuthToken>,
    /// OAuth configs.
    pub configs: Slots<OAuthConfig>,
    /// Sync states.
    pub sync_states: Slots<SyncState>,
    /// Root every sync `local_path` is confined to (`None`: syncing disabled).
    pub sync_base: Option<String>,
}

#[derive(Debug)]
pub struct ConfigureProviderRequest {
    pub provider: ProviderType,
    pub client_id: String,
    pub client_secret: Option<String>,
    pub redirect_uri: String,
}

#[derive(Debug)]
pub struct ConfigureProviderResponse {
    pub provider: ProviderType,
    pub configured: bool,
}

#[derive(Debug)]
pub struct AuthUrlResponse {
    pub auth_url: String,
    pub state: String,
}

#[derive(Debug)]
pub struct OAuthCallbackQuery {
    pub code: String,
    pub state: String,
}

#[derive(Debug)]
pub struct TokenResponse {
    pub provider: ProviderType,
    pub authenticated: bool,
    pub expires_at: Option<i64>,
}

#[derive(Debug)]
pub struct SyncRequest {
    pub provider: ProviderType,
    pub local_path: Option<String>,
    pub cloud_folder: Option<String>,
    pub direction: Option<String>,
}

#[derive(Debug)]
pub struct SyncResponse {
    pub status: String,
    pub uploaded: usize,
    pub downloaded: usize,
    pub deleted: usize,
    pub conflicts: usize,
    pub errors: Vec<String>,
    pub duration_ms: u64,
}

#[derive(Debug)]
pub struct ProviderStatus {
    pub provider: ProviderType,
    pub configured: bool,
    pub authenticated: bool,
    pub token_expires_at: Option<i64>,
}

/// The provider that a name means, in whatever case.
pub open spec fn provider_named(name: Seq<char>) -> Option<ProviderType> {
    let n = crate::text::lowercase(name);
    if n == "google_drive"@ || n == "googledrive"@ || n == "google"@ {
        Some(ProviderType::GoogleDrive)
    } else if n == "dropbox"@ {
        Some(ProviderType::Dropbox)
    } else if n == "onedrive"@ || n == "one_drive"@ {
        Some(ProviderType::OneDrive)
    } else {
        None
    }
}

/// The provider that a lower-case name means.
pub fn provider_of_lowercase(name: &str) -> (r: Option<ProviderType>)
    ensures
        r == (if name@ == "google_drive"@ || name@ == "googledrive"@ || name@ == "google"@ {
            Some(ProviderType::GoogleDrive)
        } else if name@ == "dropbox"@ {
            Some(ProviderType::Dropbox)
        } else if name@ == "onedrive"@ || name@ == "one_drive"@ {
            Some(ProviderType::OneDrive)
        } else {
            None
        }),
{
    if same(name, "google_drive") || same(name, "googledrive") || same(name, "google") {
        Some(ProviderType::GoogleDrive)
    } else if same(name, "dropbox") {
        Some(ProviderType::Dropbox)
    } else if same(name, "onedrive") || same(name, "one_drive") {
        Some(ProviderType::OneDrive)
    } else {
        None
    }
}

/// The provider that a name means, in whatever case; each provider's own name means it.
pub fn parse_provider(s: &str) -> (r: Result<ProviderType, Refusal>)
    ensures
        match provider_named(s@) {
            Some(p) => r == Ok::<ProviderType, Refusal>(p),
            None => r matches Err(e) && refuses(e, 400, "Unknown provider: "@ + s@),
        },
        forall|p: ProviderType|
            s@ == #[trigger] crate::integrations::provider_name(p) ==> r == Ok::<
                ProviderType,
                Refusal,
            >(p),
{
    let lower = to_lower(s);
    proof {
        assert forall|p: ProviderType|
            s@ == #[trigger] crate::integrations::provider_name(p) implies lower@ == s@ by {
            reveal_strlit("google_drive");
            reveal_strlit("dropbox");
            reveal_strlit("onedrive");
            assert(s@.map_values(|c: char| crate::text::ascii_lower(c)) =~= s@);
        }
        reveal_strlit("google_drive");
        reveal_strlit("dropbox");
        reveal_strlit("onedrive");
        reveal_strlit("googledrive");
        reveal_strlit("google");
        reveal_strlit("one_drive");
    }
    match provider_of_lowercase(lower.as_str()) {
        Some(p) => Ok(p),
        None => {
            let mut reason = "Unknown provider: ".to_owned();
            reason.push_str(s);
            Err(Refusal { status: 400, reason })
        },
    }
}

/// `<mount>/callback` becomes `<mount>/providers/{provider}/success`.
pub open spec fn success_path(callback: Seq<char>, provider: ProviderType) -> Seq<char> {
    let n = callback.len() - "/callback"@.len();
    let mount = if n >= 0 && callback.skip(n) == "/callback"@ {
        callback.take(n)
    } else {
        "/integrations/v2/cloud"@
    };
    mount + "/providers/"@ + crate::integrations::provider_name(provider) + "/success"@
}

/// `<mount>/callback` -> `<mount>/providers/{provider}/success` (a routed path).
pub fn success_redirect_path(callback_path: &str, provider: ProviderType) -> (r: String)
    ensures
        r@ == success_path(callback_path@, provider),
{
    let n: usize = crate::text::char_count(callback_path);
    let m: usize = crate::text::char_count("/callback");
    let mut out = "/integrations/v2/cloud".to_owned();
    if m <= n {
        let end = crate::text::slice(callback_path, n - m, n);
        assert(end@ =~= callback_path@.skip(n - m));
        if same(end, "/callback") {
            let mount = crate::text::slice(callback_path, 0, n - m);
            assert(mount@ =~= callback_path@.take(n - m));
            out = mount.to_owned();
        }
    }
    out.push_str("/providers/");
    out.push_str(provider.name());
    out.push_str("/success");
    out
}

/// Landing page after a completed OAuth flow.
pub fn success_page(provider: &str) -> (r: Result<String, Refusal>)
    ensures
        match provider_named(provider@) {
            Some(p) => r matches Ok(page) && page@
                == "<!doctype html><meta charset=utf-8><title>Connected</title><p>"@
                + crate::integrations::provider_name(p)
                + " connected. You can close this window.</p>"@,
            None => r matches Err(e) && refuses(e, 400, "Unknown provider: "@ + provider@),
        },
{
    match parse_provider(provider) {
        Ok(p) => {
            let mut out =
                "<!doctype html><meta charset=utf-8><title>Connected</title><p>".to_owned();
            out.push_str(p.name());
            out.push_str(" connected. You can close this window.</p>");
            Ok(out)
        },
        Err(e) => Err(e),
    }
}

impl IntegrationState {
    /// No state occurs twice, each flow is found by its own, and each provider by its own
    /// configuration.
    pub open spec fn wf(&self) -> bool {
        &&& self.oauth_flows.wf()
        &&& forall|p: ProviderType| (#[trigger] self.configs.of(p)) matches Some(c) ==> c.provider
            == p
        &&& forall|s: Seq<char>| #[trigger]
            self.oauth_flows@.contains_key(s) ==> self.oauth_flows@[s].expected_state() == s
    }

    /// State with syncing disabled (no sync base); see [`Self::with_sync_base`].
    pub fn new() -> (r: Self)
        ensures
            r.wf(),
            r.oauth_flows@ == Map::<Seq<char>, PkceFlow>::empty(),
            forall|p: ProviderType| #[trigger] r.tokens.of(p) is None,
            forall|p: ProviderType| #[trigger] r.configs.of(p) is None,
            forall|p: ProviderType| #[trigger] r.sync_states.of(p) is None,
            r.sync_base is None,
    {
        IntegrationState {
            oauth_flows: Table::new(),
            tokens: Slots::new(),
            configs: Slots::new(),
            sync_states: Slots::new(),
            sync_base: None,
        }
    }

    /// State whose syncs are confined to directories under `base` (created on demand).
    pub fn with_sync_base(base: String) -> (r: Self)
        ensures
            r.wf(),
            r.oauth_flows@ == Map::<Seq<char>, PkceFlow>::empty(),
            forall|p: ProviderType| #[trigger] r.tokens.of(p) is None,
            forall|p: ProviderType| #[trigger] r.configs.of(p) is None,
            forall|p: ProviderType| #[trigger] r.sync_states.of(p) is None,
            r.sync_base == Some(base),
    {
        let mut r = IntegrationState::new();
        r.sync_base = Some(base);
        r
    }

    /// Whether only the flows, the tokens, the configs or the sync states differ, as told.
    pub open spec fn same_but(
        self,
        was: Self,
        flows: bool,
        tokens: bool,
        configs: bool,
        states: bool,
    ) -> bool {
        &&& flows || self.oauth_flows == was.oauth_flows
        &&& tokens || self.tokens == was.tokens
        &&& configs || self.configs == was.configs
        &&& states || self.sync_states == was.sync_states
        &&& self.sync_base == was.sync_base
    }

    /// Configure a provider.
    pub fn configure_provider(&mut self, config: OAuthConfig)
        requires
            old(self).wf(),
        ensures
            final(self).wf(),
            final(self).configs == old(self).configs.but(config.provider, Some(config)),
            final(self).same_but(*old(self), false, false, true, false),
    {
        let provider = config.provider;
        self.configs.set(provider, config);
        assert forall|p: ProviderType|
            (#[trigger] self.configs.of(p)) matches Some(c) implies self.configs.of(p)->0.provider
            == p by {
            if p != provider {
                assert(self.configs.of(p) == old(self).configs.of(p));
            }
        }
    }

    /// Configure the provider that a request names.
    pub fn configure(&mut self, req: ConfigureProviderRequest) -> (r: ConfigureProviderResponse)
        requires
            old(self).wf(),
        ensures
            final(self).wf(),
            r.provider == req.provider,
            r.configured,
            final(self).same_but(*old(self), false, false, true, false),
            ({
                let c = final(self).configs.of(req.provider);
                &&& final(self).configs == old(self).configs.but(req.provider, c)
                &&& c matches Some(c) && {
                    &&& c.provider == req.provider
                    &&& c.client_id == req.client_id
                    &&& c.client_secret == req.client_secret
                    &&& c.redirect_uri == req.redirect_uri
                    &&& crate::text::texts(c.scopes@) == crate::integrations::oauth::scopes_of(
                        req.provider,
                    )
                }
            }),
    {
        let provider = req.provider;
        let config = match provider {
            ProviderType::GoogleDrive => OAuthConfig::google_drive(
                req.client_id,
                req.client_secret,
                req.redirect_uri,
            ),
            ProviderType::Dropbox => OAuthConfig::dropbox(
                req.client_id,
                req.client_secret,
                req.redirect_uri,
            ),
            ProviderType::OneDrive => OAuthConfig::onedrive(
                req.client_id,
                req.client_secret,
                req.redirect_uri,
            ),
        };
        self.configure_provider(config);
        ConfigureProviderResponse { provider, configured: true }
    }

    /// Get stored token for provider.
    pub fn get_token(&self, provider: ProviderType) -> (r: Option<OAuthToken>)
        ensures
            r == self.tokens.of(provider),
    {
        match self.tokens.get(provider) {
            Some(t) => Some(t.clone()),
            None => None,
        }
    }

    /// Store token for provider.
    pub fn set_token(&mut self, provider: ProviderType, token: OAuthToken)
        requires
            old(self).wf(),
        ensures
            final(self).wf(),
            final(self).tokens == old(self).tokens.but(provider, Some(token)),
            final(self).same_but(*old(self), false, true, false, false),
    {
        self.tokens.set(provider, token);
    }

    /// Get OAuth authorization URL for a provider, and keep the flow for the callback.
    pub fn get_auth_url(&mut self, provider: &str) -> (r: Result<AuthUrlResponse, Refusal>)
        requires
            old(self).wf(),
        ensures
            final(self).wf(),
            final(self).same_but(*old(self), true, false, false, false),
            match provider_named(provider@) {
                None => {
                    &&& r matches Err(e) && refuses(e, 400, "Unknown provider: "@ + provider@)
                    &&& *final(self) == *old(self)
                },
                Some(p) => match old(self).configs.of(p) {
                    None => {
                        &&& r matches Err(e) && refuses(e, 400, "Provider not configured"@)
                        &&& *final(self) == *old(self)
                    },
                    Some(c) => r matches Ok(a) && {
                        let flow = final(self).oauth_flows@[a.state@];
                        &&& final(self).oauth_flows@ == old(self).oauth_flows@.insert(
                            a.state@,
                            flow,
                        )
                        &&& crate::integrations::oauth::same_config(flow.setup(), c)
                        &&& flow.expected_state() == a.state@
                        &&& a.state@.len() == 22
                        &&& a.auth_url@ == crate::integrations::oauth::auth_endpoint_of(p) + "?"@
                            + crate::integrations::oauth::query_of(
                            crate::integrations::oauth::authorization_params(
                                c,
                                a.state@,
                                flow.challenge(),
                            ),
                        )
                    },
                },
            },
    {
        let p = match parse_provider(provider) {
            Ok(p) => p,
            Err(e) => {
                return Err(e);
            },
        };
        let config = match self.configs.get(p) {
            Some(c) => c.clone(),
            None => {
                return Err(refusal(400, "Provider not configured"));
            },
        };
        Ok(self.begin_auth(PkceFlow::new(config)))
    }

    /// Keep a flow for the callback; where its user is to be sent.
    pub fn begin_auth(&mut self, flow: PkceFlow) -> (r: AuthUrlResponse)
        requires
            old(self).wf(),
        ensures
            final(self).wf(),
            final(self).same_but(*old(self), true, false, false, false),
            final(self).oauth_flows@ == old(self).oauth_flows@.insert(flow.expected_state(), flow),
            r.state@ == flow.expected_state(),
            r.auth_url@ == crate::integrations::oauth::auth_endpoint_of(flow.setup().provider)
                + "?"@ + crate::integrations::oauth::query_of(
                crate::integrations::oauth::authorization_params(
                    flow.setup(),
                    flow.expected_state(),
                    flow.challenge(),
                ),
            ),
    {
        let auth_url = flow.authorization_url();
        let state = flow.state().to_owned();
        self.oauth_flows.insert(state.clone(), flow);
        AuthUrlResponse { auth_url, state }
    }

    /// The flow that a callback completes; it is taken out, so that its state serves once.
    pub fn oauth_callback(&mut self, state: &str) -> (r: Result<PkceFlow, Refusal>)
        requires
            old(self).wf(),
        ensures
            final(self).wf(),
            final(self).same_but(*old(self), true, false, false, false),
            final(self).oauth_flows@ == old(self).oauth_flows@.remove(state@),
            if old(self).oauth_flows@.contains_key(state@) {
                r matches Ok(flow) && flow == old(self).oauth_flows@[state@]
                    && flow.expected_state() == state@
            } else {
                r matches Err(e) && refuses(e, 400, "Invalid or expired state"@)
            },
    {
        let ghost was = self.oauth_flows@;
        match self.oauth_flows.remove(state) {
            None => {
                assert(was.remove(state@) =~= was);
                Err(refusal(400, "Invalid or expired state"))
            },
            Some(flow) => {
                assert(was.contains_key(state@));
                match validate_state(flow.state(), state) {
                    Ok(_) => Ok(flow),
                    Err(e) => Err(Refusal { status: 400, reason: e.message() }),
                }
            },
        }
    }

    /// Get token status for a provider.
    pub fn token_status(&self, provider: &str) -> (r: Result<TokenResponse, Refusal>)
        ensures
            match provider_named(provider@) {
                None => r matches Err(e) && refuses(e, 400, "Unknown provider: "@ + provider@),
                Some(p) => r matches Ok(t) && t == (TokenResponse {
                    provider: p,
                    authenticated: self.tokens.of(p) is Some,
                    expires_at: match self.tokens.of(p) {
                        Some(t) => t.expires_at,
                        None => None,
                    },
                }),
            },
    {
        match parse_provider(provider) {
            Ok(p) => {
                let token = self.get_token(p);
                Ok(
                    TokenResponse {
                        provider: p,
                        authenticated: token.is_some(),
                        expires_at: match token {
                            Some(t) => t.expires_at,
                            None => None,
                        },
                    },
                )
            },
            Err(e) => Err(e),
        }
    }

    /// What a provider is called with: its configuration and its token, if it has both.
    pub fn account(&self, p: ProviderType) -> (r: Result<(&OAuthConfig, &OAuthToken), Refusal>)
        ensures
            match (self.configs.of(p), self.tokens.of(p)) {
                (None, _) => r matches Err(e) && refuses(e, 400, "Provider not configured"@),
                (Some(_), None) => r matches Err(e) && refuses(e, 400, "Not authenticated"@),
                (Some(c), Some(t)) => r == Ok::<(&OAuthConfig, &OAuthToken), Refusal>((&c, &t)),
            },
    {
        match self.configs.get(p) {
            None => Err(refusal(400, "Provider not configured")),
            Some(c) => match self.tokens.get(p) {
                None => Err(refusal(400, "Not authenticated")),
                Some(t) => Ok((c, t)),
            },
        }
    }

    /// What a provider is called with to refresh its token.
    pub fn refresh_request(&self, provider: &str) -> (r: Result<
        (ProviderType, &OAuthConfig, &str),
        Refusal,
    >)
        ensures
            match provider_named(provider@) {
                None => r matches Err(e) && refuses(e, 400, "Unknown provider: "@ + provider@),
                Some(p) => match (self.configs.of(p), self.tokens.of(p)) {
                    (None, _) => r matches Err(e) && refuses(e, 400, "Provider not configured"@),
                    (Some(_), None) => r matches Err(e) && refuses(e, 400, "Not authenticated"@),
                    (Some(c), Some(t)) => match t.refresh_token {
                        None => r matches Err(e) && refuses(e, 400, "No refresh token"@),
                        Some(s) => r matches Ok((q, d, x)) && q == p && *d == c && x@ == s@,
                    },
                },
            },
    {
        match parse_provider(provider) {
            Err(e) => Err(e),
            Ok(p) => match self.account(p) {
                Err(e) => Err(e),
                Ok((c, t)) => match &t.refresh_token {
                    None => Err(refusal(400, "No refresh token")),
                    Some(s) => Ok((p, c, s.as_str())),
                },
            },
        }
    }

    /// The directory that syncs are confined to.
    pub fn sync_directory(&self) -> (r: Result<&str, Refusal>)
        ensures
            match self.sync_base {
                Some(b) => r matches Ok(s) && s@ == b@,
                None => r matches Err(e) && refuses(e, 503, "Sync directory not configured"@),
            },
    {
        match &self.sync_base {
            Some(b) => Ok(b.as_str()),
            None => Err(refusal(503, "Sync directory not configured")),
        }
    }

    fn status_of(&self, provider: ProviderType) -> (r: ProviderStatus)
        ensures
            r == self.provider_status(provider),
    {
        let token = self.tokens.get(provider);
        ProviderStatus {
            provider,
            configured: self.configs.get(provider).is_some(),
            authenticated: token.is_some(),
            token_expires_at: match token {
                Some(t) => t.expires_at,
                None => None,
            },
        }
    }

    /// What is told of a provider.
    pub open spec fn provider_status(self, provider: ProviderType) -> ProviderStatus {
        ProviderStatus {
            provider,
            configured: self.configs.of(provider) is Some,
            authenticated: self.tokens.of(provider) is Some,
            token_expires_at: match self.tokens.of(provider) {
                Some(t) => t.expires_at,
                None => None,
            },
        }
    }

    /// List all providers with their status.
    pub fn list_providers(&self) -> (r: Vec<ProviderStatus>)
        ensures
            r@ == seq![
                self.provider_status(ProviderType::GoogleDrive),
                self.provider_status(ProviderType::Dropbox),
                self.provider_status(ProviderType::OneDrive),
            ],
    {
        vec![
            self.status_of(ProviderType::GoogleDrive),
            self.status_of(ProviderType::Dropbox),
            self.status_of(ProviderType::OneDrive),
        ]
    }

    /// Disconnect a provider: it is always forgotten; the token that was stored is handed out, to
    /// be revoked at the provider.
    pub fn disconnect_provider(&mut self, provider: &str) -> (r: Result<
        (ProviderType, Option<OAuthToken>),
        Refusal,
    >)
        requires
            old(self).wf(),
        ensures
            final(self).wf(),
            match provider_named(provider@) {
                None => {
                    &&& r matches Err(e) && refuses(e, 400, "Unknown provider: "@ + provider@)
                    &&& *final(self) == *old(self)
                },
                Some(p) => {
                    &&& r == Ok::<(ProviderType, Option<OAuthToken>), Refusal>(
                        (p, old(self).tokens.of(p)),
                    )
                    &&& final(self).tokens == old(self).tokens.but(p, None)
                    &&& final(self).sync_states == old(self).sync_states.but(p, None)
                    &&& final(self).same_but(*old(self), false, true, false, true)
                },
            },
    {
        match parse_provider(provider) {
            Err(e) => Err(e),
            Ok(p) => {
                let token = self.tokens.take(p);
                let _ = self.sync_states.take(p);
                Ok((p, token))
            },
        }
    }
}

/// The direction that a request asks for; both ways unless it says otherwise.
pub open spec fn direction_named(name: Option<Seq<char>>) -> SyncDirection {
    if name == Some("upload"@) {
        SyncDirection::Upload
    } else if name == Some("download"@) {
        SyncDirection::Download
    } else {
        SyncDirection::Bidirectional
    }
}

/// The sync that a request asks for, in the directory that its `local_path` was resolved to.
pub fn sync_config(req: SyncRequest, local_path: String) -> (r: SyncConfig)
    ensures
        r.local_path == local_path,
        r.cloud_folder == req.cloud_folder,
        r.direction == direction_named(crate::text::text_of(req.direction)),
        r.conflict_strategy == crate::integrations::conflict::ConflictStrategy::NewerWins,
        r.folder_configs@.len() == 0,
        crate::text::texts(r.exclude_patterns@) == seq![
            "*.tmp"@,
            "*.temp"@,
            ".DS_Store"@,
            "Thumbs.db"@,
        ],
        r.max_file_size == Some(104_857_600u64),
        !r.sync_hidden,
{
    let mut config = SyncConfig::default();
    config.local_path = local_path;
    config.cloud_folder = req.cloud_folder;
    config.direction = match &req.direction {
        Some(d) => {
            if same(d.as_str(), "upload") {
                SyncDirection::Upload
            } else if same(d.as_str(), "download") {
                SyncDirection::Download
            } else {
                SyncDirection::Bidirectional
            }
        },
        None => SyncDirection::Bidirectional,
    };
    config
}

/// The name of a status.
pub open spec fn status_name(s: SyncStatus) -> Seq<char> {
    match s {
        SyncStatus::Success => "Success"@,
        SyncStatus::PartialSuccess => "PartialSuccess"@,
        SyncStatus::Failed => "Failed"@,
        SyncStatus::Cancelled => "Cancelled"@,
    }
}

/// What is answered of a sync.
pub fn sync_response(result: SyncResult) -> (r: SyncResponse)
    ensures
        r.status@ == status_name(result.status),
        r.uploaded == result.uploaded,
        r.downloaded == result.downloaded,
        r.deleted == result.deleted,
        r.conflicts == result.conflicts@.len(),
        r.errors == result.errors,
        r.duration_ms == result.duration_ms,
{
    SyncResponse {
        status: match result.status {
            SyncStatus::Success => "Success".to_owned(),
            SyncStatus::PartialSuccess => "PartialSuccess".to_owned(),
            SyncStatus::Failed => "Failed".to_owned(),
            SyncStatus::Cancelled => "Cancelled".to_owned(),
        },
        uploaded: result.uploaded,
        downloaded: result.downloaded,
        deleted: result.deleted,
        conflicts: result.conflicts.len(),
        errors: result.errors,
        duration_ms: result.duration_ms,
    }
}

/// Why a `local_path` is refused, if it is: only plain relative paths are accepted.
pub open spec fn local_path_fault(path: Seq<char>) -> Option<Seq<char>> {
    if path.contains('\0') || path.contains('\\') {
        Some("NUL or backslash"@)
    } else if (path.len() > 0 && path[0] == '/') || crate::text::split_on(path, '/').contains(
        ".."@,
    ) {
        Some("must be a relative path without '..'"@)
    } else {
        None
    }
}

/// The refusal of a `local_path`.
pub fn bad_path(why: &str) -> (r: Refusal)
    ensures
        refuses(r, 400, "invalid local_path: "@ + why@),
{
    let mut reason = "invalid local_path: ".to_owned();
    reason.push_str(why);
    Refusal { status: 400, reason }
}

/// The segments of a path that name an entry.
pub open spec fn named(segments: Seq<Seq<char>>) -> Seq<Seq<char>>
    decreases segments.len(),
{
    if segments.len() == 0 {
        Seq::empty()
    } else {
        let before = named(segments.drop_last());
        let s = segments.last();
        if s.len() == 0 || s == "."@ {
            before
        } else {
            before.push(s)
        }
    }
}

/// The directories, one below the other, that a `local_path` leads through from the sync base; none
/// for the base itself.
pub fn sync_directories(local_path: Option<&str>) -> (r: Result<Vec<String>, Refusal>)
    ensures
        ({
            let path = match local_path {
                Some(p) => p@,
                None => "."@,
            };
            match local_path_fault(path) {
                Some(why) => r matches Err(e) && refuses(e, 400, "invalid local_path: "@ + why),
                None => r matches Ok(names) && crate::text::texts(names@) == named(
                    crate::text::split_on(path, '/'),
                ),
            }
        }),
{
    let path = match local_path {
        Some(p) => p,
        None => ".",
    };
    proof {
        reveal_strlit(".");
    }
    if has_char(path, '\0') || has_char(path, '\\') {
        return Err(bad_path("NUL or backslash"));
    }
    let parts = split(path, '/');
    let ghost all = crate::text::slice_texts(parts@);
    let cs = to_chars(path);
    if cs.len() > 0 && cs[0] == '/' {
        return Err(bad_path("must be a relative path without '..'"));
    }
    let mut out: Vec<String> = Vec::new();
    let mut i: usize = 0;
    assert(all.take(0) =~= Seq::empty());
    assert(crate::text::texts(out@) =~= Seq::empty());
    while i < parts.len()
        invariant
            i <= parts@.len(),
            all == crate::text::slice_texts(parts@),
            all == crate::text::split_on(path@, '/'),
            path@ == (match local_path {
                Some(p) => p@,
                None => "."@,
            }),
            !path@.contains('\0'),
            !path@.contains('\\'),
            path@.len() == 0 || path@[0] != '/',
            forall|j: int| 0 <= j < i ==> #[trigger] all[j] != ".."@,
            crate::text::texts(out@) == named(all.take(i as int)),
        decreases parts@.len() - i,
    {
        let part = parts[i];
        assert(all.take(i as int + 1).drop_last() =~= all.take(i as int));
        assert(all.take(i as int + 1).last() == part@);
        if same(part, "..") {
            assert(all[i as int] == ".."@);
            return Err(bad_path("must be a relative path without '..'"));
        }
        if !part.is_empty() && !same(part, ".") {
            let ghost was = crate::text::texts(out@);
            out.push(part.to_owned());
            assert(crate::text::texts(out@) =~= was.push(part@));
        }
        i += 1;
    }
    assert(all.take(i as int) =~= all);
    Ok(out)
}

/// Disconnecting a provider forgets its token, and no other's.
pub proof fn law_disconnecting_forgets_one_provider(
    tokens: Slots<OAuthToken>,
    p: ProviderType,
    q: ProviderType,
)
    ensures
        tokens.but(p, None).of(p) is None,
        q != p ==> tokens.but(p, None).of(q) == tokens.of(q),
{
}

/// What is kept of one provider is kept apart from the others.
pub proof fn law_providers_are_kept_apart<T>(
    slots: Slots<T>,
    p: ProviderType,
    q: ProviderType,
    v: Option<T>,
)
    ensures
        slots.but(p, v).of(p) == v,
        q != p ==> slots.but(p, v).of(q) == slots.of(q),
{
}

/// A provider goes by its name, in any case, and a few others; no other name is one of a provider.
pub proof fn law_providers_go_by_their_names(name: Seq<char>, p: ProviderType)
    ensures
        crate::text::lowercase(name) == "google_drive"@ ==> provider_named(name) == Some(
            ProviderType::GoogleDrive,
        ),
        crate::text::lowercase(name) == "dropbox"@ ==> provider_named(name) == Some(
            ProviderType::Dropbox,
        ),
        crate::text::lowercase(name) == "onedrive"@ ==> provider_named(name) == Some(
            ProviderType::OneDrive,
        ),
        crate::text::lowercase(name) == crate::integrations::provider_name(p) ==> provider_named(
            name,
        ) == Some(p),
{
    reveal_strlit("google_drive");
    reveal_strlit("googledrive");
    reveal_strlit("google");
    reveal_strlit("dropbox");
    reveal_strlit("onedrive");
    reveal_strlit("one_drive");
    assert("google_drive"@.len() == 12 && "googledrive"@.len() == 11 && "google"@.len() == 6);
    assert("dropbox"@.len() == 7 && "onedrive"@.len() == 8 && "one_drive"@.len() == 9);
}

/// After a callback the user is led to the page of the provider that it was for, under the same
/// mount.
pub proof fn law_a_callback_leads_to_its_provider(mount: Seq<char>, p: ProviderType)
    ensures
        success_path(mount + "/callback"@, p) == mount + "/providers/"@
            + crate::integrations::provider_name(p) + "/success"@,
{
    let callback = mount + "/callback"@;
    let n = callback.len() - "/callback"@.len();
    assert(callback.skip(n) =~= "/callback"@);
    assert(callback.take(n) =~= mount);
}

/// A provider is configured where its client is known, and authenticated where there is a token
/// for it, which also tells until when.
pub proof fn law_a_status_tells_what_is_known(s: IntegrationState, p: ProviderType)
    ensures
        s.provider_status(p).provider == p,
        s.provider_status(p).configured <==> s.configs.of(p) is Some,
        s.provider_status(p).authenticated <==> s.tokens.of(p) is Some,
        s.tokens.of(p) matches Some(t) ==> s.provider_status(p).token_expires_at == t.expires_at,
        s.tokens.of(p) is None ==> s.provider_status(p).token_expires_at is None,
{
}

/// A sync goes both ways unless it is asked to go one way.
pub proof fn law_a_sync_goes_both_ways_unless_asked(name: Seq<char>)
    ensures
        direction_named(None) == SyncDirection::Bidirectional,
        direction_named(Some("upload"@)) == SyncDirection::Upload,
        direction_named(Some("download"@)) == SyncDirection::Download,
        name != "upload"@ && name != "download"@ ==> direction_named(Some(name))
            == SyncDirection::Bidirectional,
{
    reveal_strlit("upload");
    reveal_strlit("download");
    assert("upload"@.len() != "download"@.len());
}

/// A local path that is asked for is taken exactly where it is relative, never leads up, and holds
/// neither a NUL nor a backslash.
pub proof fn law_local_paths_stay_inside(path: Seq<char>)
    ensures
        local_path_fault(path) is None <==> {
            &&& !path.contains('\0')
            &&& !path.contains('\\')
            &&& path.len() == 0 || path[0] != '/'
            &&& forall|i: int|
                0 <= i < crate::text::split_on(path, '/').len() ==> #[trigger] crate::text::split_on(
                    path,
                    '/',
                )[i] != ".."@
        },
{
    let parts = crate::text::split_on(path, '/');
    if parts.contains(".."@) {
        let i = choose|i: int| 0 <= i < parts.len() && parts[i] == ".."@;
        assert(parts[i] == ".."@);
    }
}

/// The names of a path are its segments but for those that stand for nothing.
pub proof fn law_the_names_of_a_path(segments: Seq<Seq<char>>, s: Seq<char>)
    ensures
        named(Seq::empty()).len() == 0,
        s.len() > 0 && s != "."@ ==> named(segments.push(s)) == named(segments).push(s),
        s.len() == 0 || s == "."@ ==> named(segments.push(s)) == named(segments),
{
    assert(segments.push(s).drop_last() =~= segments);
}

} // verus!

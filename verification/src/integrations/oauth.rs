//! OAuth 2.0 with PKCE: authorization, the exchange of a code for tokens, and their refresh.

use vstd::prelude::*;
use vstd::string::*;
use vstd::utf8::*;

use crate::clock::now;
use crate::codec::{random_bytes, sha256_of, to_base64_url, url_encode};
use crate::integrations::{IntegrationError, ProviderType};
use crate::text::{join_strings, same};

verus! {

/// OAuth configuration for a provider.
#[derive(Debug)]
pub struct OAuthConfig {
    pub provider: ProviderType,
    pub client_id: String,
    /// Client secret (optional for PKCE flows).
    pub client_secret: Option<String>,
    pub redirect_uri: String,
    pub scopes: Vec<String>,
}

/// Whether two configurations say the same.
pub open spec fn same_config(a: OAuthConfig, b: OAuthConfig) -> bool {
    &&& a.provider == b.provider
    &&& a.client_id@ == b.client_id@
    &&& crate::text::text_of(a.client_secret) == crate::text::text_of(b.client_secret)
    &&& a.redirect_uri@ == b.redirect_uri@
    &&& crate::text::texts(a.scopes@) == crate::text::texts(b.scopes@)
}

impl Clone for OAuthConfig {
    fn clone(&self) -> (r: Self)
        ensures
            same_config(r, *self),
    {
        OAuthConfig {
            provider: self.provider,
            client_id: self.client_id.clone(),
            client_secret: self.client_secret.clone(),
            redirect_uri: self.redirect_uri.clone(),
            scopes: crate::integrations::walk::copy(&self.scopes),
        }
    }
}

/// The scopes that are asked of a provider.
pub open spec fn scopes_of(p: ProviderType) -> Seq<Seq<char>> {
    match p {
        ProviderType::GoogleDrive => seq![
            "https://www.googleapis.com/auth/drive"@,
            "https://www.googleapis.com/auth/drive.file"@,
        ],
        ProviderType::Dropbox => seq![
            "files.content.read"@,
            "files.content.write"@,
            "files.metadata.read"@,
            "files.metadata.write"@,
        ],
        ProviderType::OneDrive => seq!["Files.ReadWrite.All"@, "offline_access"@],
    }
}

/// Where a provider's users authorize access.
pub open spec fn auth_endpoint_of(p: ProviderType) -> Seq<char> {
    match p {
        ProviderType::GoogleDrive => "https://accounts.google.com/o/oauth2/v2/auth"@,
        ProviderType::Dropbox => "https://www.dropbox.com/oauth2/authorize"@,
        ProviderType::OneDrive => "https://login.microsoftonline.com/common/oauth2/v2.0/authorize"@,
    }
}

/// Where a provider issues tokens.
pub open spec fn token_endpoint_of(p: ProviderType) -> Seq<char> {
    match p {
        ProviderType::GoogleDrive => "https://oauth2.googleapis.com/token"@,
        ProviderType::Dropbox => "https://api.dropboxapi.com/oauth2/token"@,
        ProviderType::OneDrive => "https://login.microsoftonline.com/common/oauth2/v2.0/token"@,
    }
}

impl OAuthConfig {
    /// Google Drive OAuth config.
    pub fn google_drive(
        client_id: String,
        client_secret: Option<String>,
        redirect_uri: String,
    ) -> (r: Self)
        ensures
            r.provider == ProviderType::GoogleDrive,
            r.client_id == client_id,
            r.client_secret == client_secret,
            r.redirect_uri == redirect_uri,
            crate::text::texts(r.scopes@) == scopes_of(ProviderType::GoogleDrive),
    {
        let scopes = vec![
            "https://www.googleapis.com/auth/drive".to_owned(),
            "https://www.googleapis.com/auth/drive.file".to_owned(),
        ];
        assert(crate::text::texts(scopes@) =~= scopes_of(ProviderType::GoogleDrive));
        OAuthConfig {
            provider: ProviderType::GoogleDrive,
            client_id,
            client_secret,
            redirect_uri,
            scopes,
        }
    }

    /// Dropbox OAuth config.
    pub fn dropbox(
        client_id: String,
        client_secret: Option<String>,
        redirect_uri: String,
    ) -> (r: Self)
        ensures
            r.provider == ProviderType::Dropbox,
            r.client_id == client_id,
            r.client_secret == client_secret,
            r.redirect_uri == redirect_uri,
            crate::text::texts(r.scopes@) == scopes_of(ProviderType::Dropbox),
    {
        let scopes = vec![
            "files.content.read".to_owned(),
            "files.content.write".to_owned(),
            "files.metadata.read".to_owned(),
            "files.metadata.write".to_owned(),
        ];
        assert(crate::text::texts(scopes@) =~= scopes_of(ProviderType::Dropbox));
        OAuthConfig {
            provider: ProviderType::Dropbox,
            client_id,
            client_secret,
            redirect_uri,
            scopes,
        }
    }

    /// OneDrive OAuth config.
    pub fn onedrive(
        client_id: String,
        client_secret: Option<String>,
        redirect_uri: String,
    ) -> (r: Self)
        ensures
            r.provider == ProviderType::OneDrive,
            r.client_id == client_id,
            r.client_secret == client_secret,
            r.redirect_uri == redirect_uri,
            crate::text::texts(r.scopes@) == scopes_of(ProviderType::OneDrive),
    {
        let scopes = vec!["Files.ReadWrite.All".to_owned(), "offline_access".to_owned()];
        assert(crate::text::texts(scopes@) =~= scopes_of(ProviderType::OneDrive));
        OAuthConfig {
            provider: ProviderType::OneDrive,
            client_id,
            client_secret,
            redirect_uri,
            scopes,
        }
    }

    /// Get authorization endpoint for provider.
    pub fn auth_endpoint(&self) -> (r: &'static str)
        ensures
            r@ == auth_endpoint_of(self.provider),
    {
        match self.provider {
            ProviderType::GoogleDrive => "https://accounts.google.com/o/oauth2/v2/auth",
            ProviderType::Dropbox => "https://www.dropbox.com/oauth2/authorize",
            ProviderType::OneDrive => "https://login.microsoftonline.com/common/oauth2/v2.0/authorize",
        }
    }

    /// Get token endpoint for provider.
    pub fn token_endpoint(&self) -> (r: &'static str)
        ensures
            r@ == token_endpoint_of(self.provider),
    {
        match self.provider {
            ProviderType::GoogleDrive => "https://oauth2.googleapis.com/token",
            ProviderType::Dropbox => "https://api.dropboxapi.com/oauth2/token",
            ProviderType::OneDrive => "https://login.microsoftonline.com/common/oauth2/v2.0/token",
        }
    }
}

/// Where a provider takes back a grant, if it does.
pub fn revoke_endpoint(provider: ProviderType) -> (r: Option<&'static str>)
    ensures
        match provider {
            ProviderType::GoogleDrive => r matches Some(u) && u@
                == "https://oauth2.googleapis.com/revoke"@,
            ProviderType::Dropbox => r matches Some(u) && u@
                == "https://api.dropboxapi.com/2/auth/token/revoke"@,
            ProviderType::OneDrive => r is None,
        },
{
    match provider {
        ProviderType::GoogleDrive => Some("https://oauth2.googleapis.com/revoke"),
        ProviderType::Dropbox => Some("https://api.dropboxapi.com/2/auth/token/revoke"),
        ProviderType::OneDrive => None,
    }
}

/// Something that holds an OAuth configuration.
pub trait OAuthProvider {
    spec fn config(&self) -> OAuthConfig;

    fn oauth_config(&self) -> (r: &OAuthConfig)
        ensures
            *r == self.config(),
    ;

    fn oauth_config_mut(&mut self) -> (r: &mut OAuthConfig)
        ensures
            *r == old(self).config(),
            final(self).config() == *final(r),
    ;
}

/// OAuth token with refresh support.
#[derive(Debug)]
pub struct OAuthToken {
    pub access_token: String,
    pub refresh_token: Option<String>,
    pub token_type: String,
    /// Expiration time (Unix timestamp).
    pub expires_at: Option<i64>,
    /// Original scopes.
    pub scope: Option<String>,
}

/// [`OAuthToken`] with its texts as characters.
pub struct OAuthTokenView {
    pub access_token: Seq<char>,
    pub refresh_token: Option<Seq<char>>,
    pub token_type: Seq<char>,
    pub expires_at: Option<i64>,
    pub scope: Option<Seq<char>>,
}

impl View for OAuthToken {
    type V = OAuthTokenView;

    open spec fn view(&self) -> OAuthTokenView {
        OAuthTokenView {
            access_token: self.access_token@,
            refresh_token: crate::text::text_of(self.refresh_token),
            token_type: self.token_type@,
            expires_at: self.expires_at,
            scope: crate::text::text_of(self.scope),
        }
    }
}

impl Clone for OAuthToken {
    fn clone(&self) -> (r: Self)
        ensures
            r == *self,
    {
        OAuthToken {
            access_token: self.access_token.clone(),
            refresh_token: self.refresh_token.clone(),
            token_type: self.token_type.clone(),
            expires_at: self.expires_at,
            scope: self.scope.clone(),
        }
    }
}

/// Token response from OAuth provider.
#[derive(Debug)]
pub struct TokenResponse {
    pub access_token: String,
    pub refresh_token: Option<String>,
    pub token_type: Option<String>,
    pub expires_in: Option<u64>,
    pub scope: Option<String>,
}

/// Whether a token that expires at a time is taken for expired at another: five minutes early.
pub open spec fn expired_at(expires_at: Option<i64>, seconds: i64) -> bool {
    expires_at matches Some(e) && e - 300 <= seconds
}

/// The token that a response gives, received at a time.
pub open spec fn token_of(response: TokenResponse, seconds: i64) -> OAuthTokenView {
    OAuthTokenView {
        access_token: response.access_token@,
        refresh_token: crate::text::text_of(response.refresh_token),
        token_type: match response.token_type {
            Some(t) => t@,
            None => "Bearer"@,
        },
        expires_at: match response.expires_in {
            Some(secs) => Some((seconds + (secs as i64)) as i64),
            None => None,
        },
        scope: crate::text::text_of(response.scope),
    }
}

/// Whether the time that a lifetime ends, counted from any time that can be told, is one too.
pub open spec fn lifetime_fits(expires_in: Option<u64>) -> bool {
    expires_in matches Some(s) ==> s <= i64::MAX - crate::clock::MAX_SECONDS
}

impl OAuthToken {
    /// Check if token is expired (with 5 minute buffer) at `seconds`.
    pub fn is_expired_at(&self, seconds: i64) -> (r: bool)
        ensures
            r == expired_at(self.expires_at, seconds),
    {
        match self.expires_at {
            Some(e) => (e as i128) - 300 <= seconds as i128,
            None => false,  // No expiration means it doesn't expire.
        }
    }

    /// Check if token is expired (with 5 minute buffer).
    pub fn is_expired(&self) -> (r: bool)
        ensures
            exists|at: crate::clock::Timestamp|
                at.valid() && r == #[trigger] expired_at(self.expires_at, at.seconds),
            self.expires_at is None ==> !r,
    {
        let at = now();
        let r = self.is_expired_at(at.seconds);
        assert(r == expired_at(self.expires_at, at.seconds));
        r
    }

    /// The token that a response, received at `seconds`, gives.
    pub fn from_response_at(response: &TokenResponse, seconds: i64) -> (r: Self)
        requires
            crate::clock::MIN_SECONDS <= seconds <= crate::clock::MAX_SECONDS,
            lifetime_fits(response.expires_in),
        ensures
            r@ == token_of(*response, seconds),
    {
        let expires_at = match response.expires_in {
            Some(secs) => Some(seconds + secs as i64),
            None => None,
        };
        OAuthToken {
            access_token: response.access_token.clone(),
            refresh_token: response.refresh_token.clone(),
            token_type: match &response.token_type {
                Some(t) => t.clone(),
                None => "Bearer".to_owned(),
            },
            expires_at,
            scope: response.scope.clone(),
        }
    }

    /// Parse from OAuth token response.
    pub fn from_response(response: &TokenResponse) -> (r: Self)
        requires
            lifetime_fits(response.expires_in),
        ensures
            exists|at: crate::clock::Timestamp|
                at.valid() && r@ == #[trigger] token_of(*response, at.seconds),
    {
        let at = now();
        let r = OAuthToken::from_response_at(response, at.seconds);
        assert(r@ == token_of(*response, at.seconds));
        r
    }
}

/// PKCE (Proof Key for Code Exchange) flow.
pub struct PkceFlow {
    pub config: OAuthConfig,
    code_verifier: String,
    code_challenge: String,
    state: String,
}

/// The S256 challenge for a verifier.
pub open spec fn challenge_of(key: Seq<char>) -> Seq<char> {
    crate::codec::base64_url(crate::codec::sha256(encode_utf8(key)))
}

/// A query: each name, `=`, and the value percent-encoded, with `&` between.
pub open spec fn query_of(params: Seq<(Seq<char>, Seq<char>)>) -> Seq<char> {
    crate::text::join_with(
        params.map_values(
            |p: (Seq<char>, Seq<char>)| p.0 + "="@ + crate::codec::percent_encoded(p.1),
        ),
        "&"@,
    )
}

/// The texts of pairs of string slices.
pub open spec fn pairs(v: Seq<(&str, &str)>) -> Seq<(Seq<char>, Seq<char>)> {
    v.map_values(|p: (&str, &str)| (p.0@, p.1@))
}

/// The query of `params`.
pub fn query_string(params: &Vec<(&str, &str)>) -> (r: String)
    ensures
        r@ == query_of(pairs(params@)),
{
    let mut parts: Vec<String> = Vec::new();
    let ghost all = pairs(params@).map_values(
        |p: (Seq<char>, Seq<char>)| p.0 + "="@ + crate::codec::percent_encoded(p.1),
    );
    let mut i: usize = 0;
    while i < params.len()
        invariant
            i <= params@.len(),
            all == pairs(params@).map_values(
                |p: (Seq<char>, Seq<char>)| p.0 + "="@ + crate::codec::percent_encoded(p.1),
            ),
            crate::text::texts(parts@) == all.take(i as int),
        decreases params@.len() - i,
    {
        let mut part = params[i].0.to_owned();
        part.push_str("=");
        part.push_str(url_encode(params[i].1).as_str());
        let ghost was = crate::text::texts(parts@);
        assert(part@ =~= all[i as int]);
        parts.push(part);
        assert(crate::text::texts(parts@) =~= was.push(all[i as int]));
        assert(all.take(i as int + 1) =~= all.take(i as int).push(all[i as int]));
        i += 1;
    }
    assert(all.take(i as int) =~= all);
    join_strings(&parts, "&")
}

/// What is asked of every provider, and of one in particular.
pub open spec fn authorization_params(
    c: OAuthConfig,
    state: Seq<char>,
    challenge: Seq<char>,
) -> Seq<(Seq<char>, Seq<char>)> {
    seq![
        ("client_id"@, c.client_id@),
        ("redirect_uri"@, c.redirect_uri@),
        ("response_type"@, "code"@),
        ("scope"@, crate::text::join_with(crate::text::texts(c.scopes@), " "@)),
        ("state"@, state),
        ("code_challenge"@, challenge),
        ("code_challenge_method"@, "S256"@),
    ] + match c.provider {
        ProviderType::GoogleDrive => seq![
            ("access_type"@, "offline"@),
            ("prompt"@, "consent"@),
        ],
        ProviderType::Dropbox => seq![("token_access_type"@, "offline"@)],
        ProviderType::OneDrive => seq![("response_mode"@, "query"@)],
    }
}

/// What is sent to exchange a code for tokens.
pub open spec fn exchange_params(
    c: OAuthConfig,
    code: Seq<char>,
    key: Seq<char>,
) -> Seq<(Seq<char>, Seq<char>)> {
    seq![
        ("grant_type"@, "authorization_code"@),
        ("code"@, code),
        ("redirect_uri"@, c.redirect_uri@),
        ("client_id"@, c.client_id@),
        ("code_verifier"@, key),
    ] + match c.client_secret {
        Some(s) => seq![("client_secret"@, s@)],
        None => seq![],
    }
}

/// What is sent to refresh a token.
pub open spec fn refresh_request(c: OAuthConfig, refresh_token: Seq<char>) -> Seq<
    (Seq<char>, Seq<char>),
> {
    seq![
        ("grant_type"@, "refresh_token"@),
        ("refresh_token"@, refresh_token),
        ("client_id"@, c.client_id@),
    ] + match c.client_secret {
        Some(s) => seq![("client_secret"@, s@)],
        None => seq![],
    }
}

impl PkceFlow {
    /// The configuration that the flow follows.
    pub closed spec fn setup(&self) -> OAuthConfig {
        self.config
    }

    /// The verifier that the code is exchanged with.
    pub closed spec fn proof_key(&self) -> Seq<char> {
        self.code_verifier@
    }

    /// The challenge that the authorization carries.
    pub closed spec fn challenge(&self) -> Seq<char> {
        self.code_challenge@
    }

    /// The state that the answer must carry.
    pub closed spec fn expected_state(&self) -> Seq<char> {
        self.state@
    }

    /// Create new PKCE flow: its verifier has 43 characters, its state 22, all URL-safe.
    pub fn new(config: OAuthConfig) -> (r: Self)
        ensures
            r.setup() == config,
            r.challenge() == challenge_of(r.proof_key()),
            r.proof_key().len() == 43,
            forall|i: int|
                0 <= i < 43 ==> crate::codec::is_url_safe(#[trigger] r.proof_key()[i]),
            r.expected_state().len() == 22,
            forall|i: int|
                0 <= i < 22 ==> crate::codec::is_url_safe(#[trigger] r.expected_state()[i]),
    {
        PkceFlow::from_random(config, &random_bytes(32), &random_bytes(16))
    }

    /// The flow whose verifier and state come from the given bytes.
    pub fn from_random(config: OAuthConfig, key: &Vec<u8>, state: &Vec<u8>) -> (r: Self)
        ensures
            r.setup() == config,
            r.proof_key() == crate::codec::base64_url(key@),
            r.challenge() == challenge_of(r.proof_key()),
            r.expected_state() == crate::codec::base64_url(state@),
            r.proof_key().len() == (key@.len() * 4 + 2) / 3,
            forall|i: int|
                0 <= i < r.proof_key().len() ==> crate::codec::is_url_safe(
                    #[trigger] r.proof_key()[i],
                ),
            r.expected_state().len() == (state@.len() * 4 + 2) / 3,
            forall|i: int|
                0 <= i < r.expected_state().len() ==> crate::codec::is_url_safe(
                    #[trigger] r.expected_state()[i],
                ),
    {
        let code_verifier = to_base64_url(key.as_slice());
        let code_challenge = PkceFlow::generate_challenge(code_verifier.as_str());
        let state = to_base64_url(state.as_slice());
        PkceFlow { config, code_verifier, code_challenge, state }
    }

    /// Generate S256 code challenge from verifier.
    pub fn generate_challenge(key: &str) -> (r: String)
        ensures
            r@ == challenge_of(key@),
    {
        let hash = sha256_of(key.as_bytes());
        to_base64_url(hash.as_slice())
    }

    /// Get the state parameter for validation.
    pub fn state(&self) -> (r: &str)
        ensures
            r@ == self.expected_state(),
    {
        self.state.as_str()
    }

    /// Get the code verifier (needed for token exchange).
    pub fn code_verifier(&self) -> (r: &str)
        ensures
            r@ == self.proof_key(),
    {
        self.code_verifier.as_str()
    }

    /// Get the code challenge (part of the authorization).
    pub fn code_challenge(&self) -> (r: &str)
        ensures
            r@ == self.challenge(),
    {
        self.code_challenge.as_str()
    }

    /// Build authorization URL for user redirect.
    pub fn authorization_url(&self) -> (r: String)
        ensures
            r@ == auth_endpoint_of(self.setup().provider) + "?"@ + query_of(
                authorization_params(self.setup(), self.expected_state(), self.challenge()),
            ),
    {
        let scopes = join_strings(&self.config.scopes, " ");
        let mut params: Vec<(&str, &str)> = vec![
            ("client_id", self.config.client_id.as_str()),
            ("redirect_uri", self.config.redirect_uri.as_str()),
            ("response_type", "code"),
            ("scope", scopes.as_str()),
            ("state", self.state.as_str()),
            ("code_challenge", self.code_challenge.as_str()),
            ("code_challenge_method", "S256"),
        ];
        match self.config.provider {
            ProviderType::GoogleDrive => {
                params.push(("access_type", "offline"));
                params.push(("prompt", "consent"));
            },
            ProviderType::Dropbox => {
                params.push(("token_access_type", "offline"));
            },
            ProviderType::OneDrive => {
                params.push(("response_mode", "query"));
            },
        }
        assert(pairs(params@) =~= authorization_params(
            self.config,
            self.expected_state(),
            self.challenge(),
        ));
        let mut out = self.config.auth_endpoint().to_owned();
        out.push_str("?");
        out.push_str(query_string(&params).as_str());
        out
    }

    /// The form to send to the token endpoint in exchange for `code`.
    pub fn exchange_form<'a>(&'a self, code: &'a str) -> (r: Vec<(&'a str, &'a str)>)
        ensures
            pairs(r@) == exchange_params(self.setup(), code@, self.proof_key()),
    {
        let mut params: Vec<(&'a str, &'a str)> = vec![
            ("grant_type", "authorization_code"),
            ("code", code),
            ("redirect_uri", self.config.redirect_uri.as_str()),
            ("client_id", self.config.client_id.as_str()),
            ("code_verifier", self.code_verifier.as_str()),
        ];
        if let Some(secret) = &self.config.client_secret {
            params.push(("client_secret", secret.as_str()));
        }
        assert(pairs(params@) =~= exchange_params(self.config, code@, self.proof_key()));
        params
    }
}

/// The form to send to the token endpoint to refresh a token.
pub fn refresh_form<'a>(config: &'a OAuthConfig, refresh_token: &'a str) -> (r: Vec<
    (&'a str, &'a str),
>)
    ensures
        pairs(r@) == refresh_request(*config, refresh_token@),
{
    let mut params: Vec<(&'a str, &'a str)> = vec![
        ("grant_type", "refresh_token"),
        ("refresh_token", refresh_token),
        ("client_id", config.client_id.as_str()),
    ];
    if let Some(secret) = &config.client_secret {
        params.push(("client_secret", secret.as_str()));
    }
    assert(pairs(params@) =~= refresh_request(*config, refresh_token@));
    params
}

/// Whether an HTTP status tells success.
pub open spec fn success(status: u16) -> bool {
    200 <= status <= 299
}

/// Whether an HTTP status tells success.
pub fn is_success(status: u16) -> (r: bool)
    ensures
        r == success(status),
{
    200 <= status && status <= 299
}

/// What the answer to an exchange of a code comes to, where it is no success: `body` is its text.
pub fn exchange_refused(status: u16, body: &str) -> (r: Option<IntegrationError>)
    ensures
        if success(status) {
            r is None
        } else {
            r matches Some(e) && e@ == crate::integrations::IntegrationErrorView::OAuth(
                "Token exchange failed: "@ + body@,
            )
        },
{
    if is_success(status) {
        return None;
    }
    let mut text = "Token exchange failed: ".to_owned();
    text.push_str(body);
    Some(IntegrationError::OAuth(text))
}

/// What the answer to a refresh comes to, where it is no success: `body` is its text.
pub fn refresh_refused(status: u16, body: &str) -> (r: Option<IntegrationError>)
    ensures
        if success(status) {
            r is None
        } else {
            r matches Some(e) && e@ == crate::integrations::IntegrationErrorView::TokenRefreshFailed(
                if status == 400 || status == 401 {
                    "Refresh token invalid or revoked: "@ + body@
                } else {
                    body@
                },
            )
        },
{
    if is_success(status) {
        return None;
    }
    if status == 400 || status == 401 {
        let mut text = "Refresh token invalid or revoked: ".to_owned();
        text.push_str(body);
        return Some(IntegrationError::TokenRefreshFailed(text));
    }
    Some(IntegrationError::TokenRefreshFailed(body.to_owned()))
}

/// The token that a refresh gives: the refresh token is kept where none is returned.
pub fn refreshed_token(response: &TokenResponse, refresh_token: &str, seconds: i64) -> (r:
    OAuthToken)
    requires
        crate::clock::MIN_SECONDS <= seconds <= crate::clock::MAX_SECONDS,
        lifetime_fits(response.expires_in),
    ensures
        r@ == (OAuthTokenView {
            refresh_token: Some(
                match response.refresh_token {
                    Some(t) => t@,
                    None => refresh_token@,
                },
            ),
            ..token_of(*response, seconds)
        }),
{
    let mut token = OAuthToken::from_response_at(response, seconds);
    if token.refresh_token.is_none() {
        token.refresh_token = Some(refresh_token.to_owned());
    }
    token
}

/// Validate state parameter matches.
pub fn validate_state(expected: &str, received: &str) -> (r: Result<(), IntegrationError>)
    ensures
        if expected@ == received@ {
            r is Ok
        } else {
            r matches Err(e) && e@ == crate::integrations::IntegrationErrorView::OAuth(
                "State parameter mismatch - possible CSRF attack"@,
            )
        },
{
    if !same(expected, received) {
        return Err(
            IntegrationError::OAuth("State parameter mismatch - possible CSRF attack".to_owned()),
        );
    }
    Ok(())
}

/// A refresh never loses the means to refresh again.
pub proof fn law_refresh_keeps_a_refresh_token(
    response: TokenResponse,
    refresh_token: Seq<char>,
    r: OAuthToken,
    seconds: i64,
)
    requires
        r@ == (OAuthTokenView {
            refresh_token: Some(
                match response.refresh_token {
                    Some(t) => t@,
                    None => refresh_token,
                },
            ),
            ..token_of(response, seconds)
        }),
    ensures
        r.refresh_token is Some,
        response.refresh_token is None ==> r@.refresh_token == Some(refresh_token),
{
}

/// A token with a lifetime is taken for expired from five minutes before its end on, and not
/// before; one without never is.
pub proof fn law_expiry_has_a_margin(response: TokenResponse, received: i64, later: i64)
    requires
        crate::clock::MIN_SECONDS <= received <= crate::clock::MAX_SECONDS,
        lifetime_fits(response.expires_in),
    ensures
        match response.expires_in {
            Some(life) => expired_at(token_of(response, received).expires_at, later) <==> later
                >= received + life - 300,
            None => !expired_at(token_of(response, received).expires_at, later),
        },
{
}

/// A token is what the answer grants: the same access token, refresh token and scope, a bearer
/// token where its kind is not told, and good until its lifetime after the answer is over.
pub proof fn law_a_token_is_what_was_granted(response: TokenResponse, seconds: i64)
    requires
        crate::clock::MIN_SECONDS <= seconds <= crate::clock::MAX_SECONDS,
        lifetime_fits(response.expires_in),
    ensures
        token_of(response, seconds).access_token == response.access_token@,
        response.refresh_token matches Some(t) ==> token_of(response, seconds).refresh_token
            == Some(t@),
        response.refresh_token is None ==> token_of(response, seconds).refresh_token is None,
        response.scope matches Some(s) ==> token_of(response, seconds).scope == Some(s@),
        response.scope is None ==> token_of(response, seconds).scope is None,
        response.token_type matches Some(t) ==> token_of(response, seconds).token_type == t@,
        response.token_type is None ==> token_of(response, seconds).token_type == "Bearer"@,
        response.expires_in matches Some(life) ==> (token_of(response, seconds).expires_at
            matches Some(end) && end == seconds + life),
        response.expires_in is None ==> token_of(response, seconds).expires_at is None,
{
}

/// A request for authorization names the client, where to come back to, what is asked for and the
/// state that has to come back, and carries the challenge that only the holder of the key can
/// meet.
pub proof fn law_an_authorization_carries_the_challenge(
    c: OAuthConfig,
    state: Seq<char>,
    challenge: Seq<char>,
)
    ensures
        authorization_params(c, state, challenge).contains(("client_id"@, c.client_id@)),
        authorization_params(c, state, challenge).contains(("redirect_uri"@, c.redirect_uri@)),
        authorization_params(c, state, challenge).contains(("response_type"@, "code"@)),
        authorization_params(c, state, challenge).contains(("state"@, state)),
        authorization_params(c, state, challenge).contains(("code_challenge"@, challenge)),
        authorization_params(c, state, challenge).contains(("code_challenge_method"@, "S256"@)),
        authorization_params(c, state, challenge).contains(
            ("scope"@, crate::text::join_with(crate::text::texts(c.scopes@), " "@)),
        ),
        c.provider == ProviderType::GoogleDrive ==> authorization_params(
            c,
            state,
            challenge,
        ).contains(("access_type"@, "offline"@)),
        c.provider == ProviderType::Dropbox ==> authorization_params(c, state, challenge).contains(
            ("token_access_type"@, "offline"@),
        ),
{
    let p = authorization_params(c, state, challenge);
    assert(p[0] == ("client_id"@, c.client_id@));
    assert(p[1] == ("redirect_uri"@, c.redirect_uri@));
    assert(p[2] == ("response_type"@, "code"@));
    assert(p[3] == ("scope"@, crate::text::join_with(crate::text::texts(c.scopes@), " "@)));
    assert(p[4] == ("state"@, state));
    assert(p[5] == ("code_challenge"@, challenge));
    assert(p[6] == ("code_challenge_method"@, "S256"@));
    if c.provider == ProviderType::GoogleDrive {
        assert(p[7] == ("access_type"@, "offline"@));
    }
    if c.provider == ProviderType::Dropbox {
        assert(p[7] == ("token_access_type"@, "offline"@));
    }
}

/// A code is exchanged with the key that its challenge was made of, and with the client's secret
/// exactly where there is one; so is a refresh token.
pub proof fn law_an_exchange_carries_the_key(c: OAuthConfig, code: Seq<char>, key: Seq<char>)
    ensures
        exchange_params(c, code, key).contains(("grant_type"@, "authorization_code"@)),
        exchange_params(c, code, key).contains(("code"@, code)),
        exchange_params(c, code, key).contains(("code_verifier"@, key)),
        exchange_params(c, code, key).contains(("client_id"@, c.client_id@)),
        exchange_params(c, code, key).contains(("redirect_uri"@, c.redirect_uri@)),
        c.client_secret matches Some(s) ==> exchange_params(c, code, key).contains(
            ("client_secret"@, s@),
        ),
        c.client_secret is None ==> exchange_params(c, code, key).len() == 5,
        refresh_request(c, code).contains(("grant_type"@, "refresh_token"@)),
        refresh_request(c, code).contains(("refresh_token"@, code)),
        refresh_request(c, code).contains(("client_id"@, c.client_id@)),
        c.client_secret matches Some(s) ==> refresh_request(c, code).contains(
            ("client_secret"@, s@),
        ),
        c.client_secret is None ==> refresh_request(c, code).len() == 3,
{
    let p = exchange_params(c, code, key);
    assert(p[0] == ("grant_type"@, "authorization_code"@));
    assert(p[1] == ("code"@, code));
    assert(p[2] == ("redirect_uri"@, c.redirect_uri@));
    assert(p[3] == ("client_id"@, c.client_id@));
    assert(p[4] == ("code_verifier"@, key));
    let q = refresh_request(c, code);
    assert(q[0] == ("grant_type"@, "refresh_token"@));
    assert(q[1] == ("refresh_token"@, code));
    assert(q[2] == ("client_id"@, c.client_id@));
    if let Some(s) = c.client_secret {
        assert(p[5] == ("client_secret"@, s@));
        assert(q[3] == ("client_secret"@, s@));
    }
}

/// A query is its parameters one after the other, each value encoded.
pub proof fn law_a_query_is_made_of_its_parameters(
    params: Seq<(Seq<char>, Seq<char>)>,
    name: Seq<char>,
    value: Seq<char>,
)
    ensures
        query_of(seq![(name, value)]) == name + "="@ + crate::codec::percent_encoded(value),
        params.len() > 0 ==> query_of(params.push((name, value))) == query_of(params) + "&"@ + (name
            + "="@ + crate::codec::percent_encoded(value)),
{
    let written = |p: (Seq<char>, Seq<char>)| p.0 + "="@ + crate::codec::percent_encoded(p.1);
    let one = seq![(name, value)].map_values(written);
    assert(one[0] == name + "="@ + crate::codec::percent_encoded(value));
    let all = params.push((name, value)).map_values(written);
    assert(all.drop_last() =~= params.map_values(written));
    assert(all.last() == name + "="@ + crate::codec::percent_encoded(value));
}

/// A success is any status of the two hundreds.
pub proof fn law_successes(status: u16)
    ensures
        success(status) <==> status / 100 == 2,
{
}

/// Each provider is asked at its own addresses, for access to files that lasts.
pub proof fn law_providers_are_asked_at_their_own_addresses(p: ProviderType)
    ensures
        p is GoogleDrive ==> auth_endpoint_of(p) == "https://accounts.google.com/o/oauth2/v2/auth"@
            && token_endpoint_of(p) == "https://oauth2.googleapis.com/token"@ && scopes_of(
            p,
        ).contains("https://www.googleapis.com/auth/drive"@),
        p is Dropbox ==> auth_endpoint_of(p) == "https://www.dropbox.com/oauth2/authorize"@
            && token_endpoint_of(p) == "https://api.dropboxapi.com/oauth2/token"@ && scopes_of(
            p,
        ).contains("files.content.read"@) && scopes_of(p).contains("files.content.write"@),
        p is OneDrive ==> auth_endpoint_of(p)
            == "https://login.microsoftonline.com/common/oauth2/v2.0/authorize"@
            && token_endpoint_of(p) == "https://login.microsoftonline.com/common/oauth2/v2.0/token"@
            && scopes_of(p).contains("Files.ReadWrite.All"@) && scopes_of(p).contains(
            "offline_access"@,
        ),
{
    let s = scopes_of(p);
    match p {
        ProviderType::GoogleDrive => {
            assert(s[0] == "https://www.googleapis.com/auth/drive"@);
        },
        ProviderType::Dropbox => {
            assert(s[0] == "files.content.read"@ && s[1] == "files.content.write"@);
        },
        ProviderType::OneDrive => {
            assert(s[0] == "Files.ReadWrite.All"@ && s[1] == "offline_access"@);
        },
    }
}

/// A challenge is the digest of its key, so that only the key meets it.
pub proof fn law_a_challenge_is_the_digest_of_its_key(key: Seq<char>)
    ensures
        challenge_of(key) == crate::codec::base64_url(
            crate::codec::sha256(vstd::utf8::encode_utf8(key)),
        ),
{
}

/// A token is told as it is.
pub proof fn law_a_token_is_told_as_it_is(t: OAuthToken)
    ensures
        t@.access_token == t.access_token@,
        t@.token_type == t.token_type@,
        t@.expires_at == t.expires_at,
        t.refresh_token matches Some(r) ==> t@.refresh_token == Some(r@),
        t.refresh_token is None ==> t@.refresh_token is None,
        t.scope matches Some(s) ==> t@.scope == Some(s@),
        t.scope is None ==> t@.scope is None,
{
}

} // verus!

//! Instapaper: what is asked of its API, and what its answers mean.

use vstd::prelude::*;
use vstd::string::*;

use crate::clock::{from_unix, now, Timestamp};
use crate::codec::random_uuid;
use crate::readlater::oauth1::{parse_form_urlencoded, signed_post};
use crate::readlater::pocket::new_article;
use crate::readlater::{
    Article, OAuthCallback, OAuthState, ProviderConfig, ReadLaterError, ReadLaterProvider,
    ReadStatus,
};
use crate::text::{decimal_i64, same, trim_end_char};

verus! {

pub const API_BASE: &'static str = "https://www.instapaper.com/api/1";

/// Instapaper, with the consumer that requests are signed by.
#[derive(Debug)]
pub struct InstapaperProvider {
    pub consumer_key: String,
    pub consumer_secret: String,
    pub api_base: String,
}

impl InstapaperProvider {
    pub fn new(consumer_key: String, consumer_secret: String) -> (r: Self)
        ensures
            r.consumer_key == consumer_key,
            r.consumer_secret == consumer_secret,
            r.api_base@ == API_BASE@,
    {
        InstapaperProvider { consumer_key, consumer_secret, api_base: API_BASE.to_owned() }
    }

    /// Point the provider at a different API root (used by tests against a local server).
    pub fn with_api_base(self, api_base: &str) -> (r: Self)
        ensures
            r.consumer_key == self.consumer_key,
            r.consumer_secret == self.consumer_secret,
            r.api_base@ == crate::text::trimmed_end(api_base@, '/'),
    {
        InstapaperProvider {
            consumer_key: self.consumer_key,
            consumer_secret: self.consumer_secret,
            api_base: trim_end_char(api_base, '/').to_owned(),
        }
    }

    /// Where a request goes.
    pub fn url(&self, endpoint: &str) -> (r: String)
        ensures
            r@ == self.api_base@ + "/"@ + endpoint@,
    {
        let mut out = self.api_base.clone();
        out.push_str("/");
        out.push_str(endpoint);
        out
    }

    /// The `Authorization` header of a request.
    pub fn authorization(
        &self,
        url: &str,
        token: Option<&str>,
        token_secret: Option<&str>,
        body: &Vec<(&str, &str)>,
    ) -> (r: String)
        ensures
            exists|nonce: Seq<char>, timestamp: Seq<char>|
                nonce.len() == 32 && #[trigger] crate::readlater::oauth1::authorization(
                    self.consumer_key@,
                    self.consumer_secret@,
                    url@,
                    crate::text::text_of_str(token),
                    crate::text::text_of_str(token_secret),
                    crate::integrations::oauth::pairs(body@),
                    nonce,
                    timestamp,
                ) == r@,
    {
        signed_post(
            self.consumer_key.as_str(),
            self.consumer_secret.as_str(),
            url,
            token,
            token_secret,
            body,
        )
    }

    /// What the xAuth request for an access token carries: the user's Instapaper username and
    /// password (from the callback). Accounts may have no password; an empty one is sent then.
    pub fn xauth_request<'a>(&self, callback: &'a OAuthCallback) -> (r: Result<
        Vec<(&'static str, &'a str)>,
        ReadLaterError,
    >)
        ensures
            if self.consumer_key@.len() == 0 || self.consumer_secret@.len() == 0 {
                r matches Err(e) && e@ == crate::readlater::ReadLaterErrorView::OAuth(
                    "INSTAPAPER_CONSUMER_KEY / INSTAPAPER_CONSUMER_SECRET not set"@,
                )
            } else if crate::text::or_empty(callback.username).len() == 0 {
                r matches Err(e) && e@ == crate::readlater::ReadLaterErrorView::OAuth(
                    "Instapaper xAuth requires a username"@,
                )
            } else {
                r matches Ok(body) && crate::integrations::oauth::pairs(body@) == seq![
                    ("x_auth_username"@, crate::text::or_empty(callback.username)),
                    ("x_auth_password"@, crate::text::or_empty(callback.password)),
                    ("x_auth_mode"@, "client_auth"@),
                ]
            },
    {
        if self.consumer_key.as_str().is_empty() || self.consumer_secret.as_str().is_empty() {
            return Err(
                ReadLaterError::OAuth(
                    "INSTAPAPER_CONSUMER_KEY / INSTAPAPER_CONSUMER_SECRET not set".to_owned(),
                ),
            );
        }
        let username = match &callback.username {
            Some(u) => u.as_str(),
            None => "",
        };
        let password = match &callback.password {
            Some(p) => p.as_str(),
            None => "",
        };
        proof {
            reveal_strlit("");
            assert(username@ =~= crate::text::or_empty(callback.username));
            assert(password@ =~= crate::text::or_empty(callback.password));
        }
        if username.is_empty() {
            return Err(ReadLaterError::OAuth("Instapaper xAuth requires a username".to_owned()));
        }
        let mut body: Vec<(&'static str, &'a str)> = Vec::new();
        body.push(("x_auth_username", username));
        body.push(("x_auth_password", password));
        body.push(("x_auth_mode", "client_auth"));
        assert(crate::integrations::oauth::pairs(body@) =~= seq![
            ("x_auth_username"@, username@),
            ("x_auth_password"@, password@),
            ("x_auth_mode"@, "client_auth"@),
        ]);
        Ok(body)
    }
}

/// The value of the last pair of a name.
pub open spec fn last_value(pairs: Seq<(String, String)>, name: Seq<char>) -> Option<Seq<char>>
    decreases pairs.len(),
{
    if pairs.len() == 0 {
        None
    } else if pairs.last().0@ == name {
        Some(pairs.last().1@)
    } else {
        last_value(pairs.drop_last(), name)
    }
}

/// The value of the last pair of a name.
pub fn last_of(pairs: &Vec<(String, String)>, name: &str) -> (r: Option<String>)
    ensures
        crate::text::text_of(r) == last_value(pairs@, name@),
{
    let mut i: usize = pairs.len();
    assert(pairs@.take(i as int) =~= pairs@);
    while i > 0
        invariant
            i <= pairs@.len(),
            last_value(pairs@, name@) == last_value(pairs@.take(i as int), name@),
        decreases i,
    {
        i -= 1;
        assert(pairs@.take(i as int + 1).drop_last() =~= pairs@.take(i as int));
        if same(pairs[i].0.as_str(), name) {
            return Some(pairs[i].1.clone());
        }
    }
    None
}

/// Whether `r` is what the answer to the xAuth request gives, its pairs being `pairs`.
pub open spec fn is_xauth_outcome(
    r: Result<ProviderConfig, ReadLaterError>,
    pairs: Seq<(String, String)>,
    username: Seq<char>,
) -> bool {
    match (last_value(pairs, "oauth_token"@), last_value(pairs, "oauth_token_secret"@)) {
        (Some(t), Some(s)) => r matches Ok(
            ProviderConfig::Instapaper { oauth_token, oauth_token_secret, username: u },
        ) && crate::text::text_of(oauth_token) == Some(t) && crate::text::text_of(
            oauth_token_secret,
        ) == Some(s) && crate::text::text_of(u) == Some(username),
        _ => r matches Err(e) && e@ == crate::readlater::ReadLaterErrorView::OAuth(
            "Instapaper xAuth response missing oauth_token/oauth_token_secret"@,
        ),
    }
}

/// The configuration that the answer to the xAuth request gives, its pairs being `pairs`.
pub fn xauth_config(pairs: &Vec<(String, String)>, username: &str) -> (r: Result<
    ProviderConfig,
    ReadLaterError,
>)
    ensures
        is_xauth_outcome(r, pairs@, username@),
{
    match (last_of(pairs, "oauth_token"), last_of(pairs, "oauth_token_secret")) {
        (Some(t), Some(s)) => Ok(
            ProviderConfig::Instapaper {
                oauth_token: Some(t),
                oauth_token_secret: Some(s),
                username: Some(username.to_owned()),
            },
        ),
        _ => Err(
            ReadLaterError::OAuth(
                "Instapaper xAuth response missing oauth_token/oauth_token_secret".to_owned(),
            ),
        ),
    }
}

/// Whether `pairs` are the pairs of a form.
pub open spec fn are_form_pairs(pairs: Seq<(String, String)>, body: Seq<char>) -> bool {
    let raw = crate::readlater::oauth1::form_pairs(
        crate::text::split_on(
            crate::text::trimmed_space_end(crate::text::trimmed_start(body)),
            '&',
        ),
    );
    &&& pairs.len() == raw.len()
    &&& forall|i: int|
        0 <= i < raw.len() ==> crate::readlater::oauth1::is_form_value(
            crate::readlater::oauth1::pair_name(#[trigger] raw[i]),
            pairs[i].0@,
        ) && crate::readlater::oauth1::is_form_value(
            crate::readlater::oauth1::pair_value(raw[i]),
            pairs[i].1@,
        )
}

/// The configuration that the answer to the xAuth request gives.
pub fn xauth_response(body: &str, username: &str) -> (r: Result<ProviderConfig, ReadLaterError>)
    ensures
        exists|pairs: Seq<(String, String)>| #[trigger]
            are_form_pairs(pairs, body@) && is_xauth_outcome(r, pairs, username@),
{
    let pairs = parse_form_urlencoded(body);
    assert(are_form_pairs(pairs@, body@));
    xauth_config(&pairs, username)
}

/// Instapaper uses xAuth (username/password OAuth), not redirect flow.
pub fn start_oauth(redirect_uri: &str, at: Timestamp) -> (r: OAuthState)
    ensures
        r.provider == ReadLaterProvider::Instapaper,
        r.request_token is None,
        r.redirect_uri@ == redirect_uri@,
        r.created_at == at,
{
    OAuthState {
        provider: ReadLaterProvider::Instapaper,
        request_token: None,
        redirect_uri: redirect_uri.to_owned(),
        created_at: at,
    }
}

/// The token and its secret of a configuration.
pub fn credentials<'a>(config: &'a ProviderConfig) -> (r: Result<
    (&'a str, Option<&'a str>),
    ReadLaterError,
>)
    ensures
        match *config {
            ProviderConfig::Instapaper { oauth_token, oauth_token_secret, .. } => match oauth_token {
                Some(t) => r matches Ok((a, s)) && a@ == t@ && crate::text::text_of_str(s)
                    == crate::text::text_of(oauth_token_secret),
                None => r matches Err(e) && e@
                    == crate::readlater::ReadLaterErrorView::AuthRequired("Instapaper"@),
            },
            _ => r matches Err(e) && e@ == crate::readlater::ReadLaterErrorView::Api(
                "Invalid config"@,
            ),
        },
{
    match config {
        ProviderConfig::Instapaper { oauth_token, oauth_token_secret, .. } => match oauth_token {
            Some(t) => Ok(
                (
                    t.as_str(),
                    match oauth_token_secret {
                        Some(s) => Some(s.as_str()),
                        None => None,
                    },
                ),
            ),
            None => Err(ReadLaterError::AuthRequired("Instapaper".to_owned())),
        },
        _ => Err(ReadLaterError::Api("Invalid config".to_owned())),
    }
}

/// How far reading has come.
#[derive(Debug, Clone, Copy, PartialEq, Eq, Structural)]
pub enum Progress {
    Unstarted,
    Started,
    Finished,
}

/// A bookmark of Instapaper's list.
#[derive(Debug)]
pub struct Bookmark {
    pub bookmark_id: i64,
    pub url: String,
    pub title: String,
    pub description: Option<String>,
    pub time: i64,
    pub progress: Progress,
    pub starred: String,
}

/// The status that progress means.
pub open spec fn status_of(p: Progress) -> ReadStatus {
    match p {
        Progress::Finished => ReadStatus::Read,
        Progress::Started => ReadStatus::InProgress,
        Progress::Unstarted => ReadStatus::Unread,
    }
}

/// The article that a bookmark is, under an id, at a time.
pub open spec fn article_of(
    b: Bookmark,
    id: Seq<char>,
    at: Timestamp,
) -> crate::readlater::ArticleView {
    crate::readlater::ArticleView {
        id,
        provider: ReadLaterProvider::Instapaper,
        provider_id: crate::text::signed_decimal(b.bookmark_id as int),
        url: b.url@,
        title: b.title@,
        excerpt: crate::text::text_of(b.description),
        author: None,
        word_count: None,
        reading_time_minutes: None,
        tags: Seq::empty(),
        status: status_of(b.progress),
        favorite: b.starred@ == "1"@,
        added_at: crate::readlater::pocket::time_or(b.time as int, at),
        updated_at: crate::readlater::pocket::time_or(b.time as int, at),
        read_at: if b.progress == Progress::Finished {
            Some(at)
        } else {
            None
        },
        content: None,
        image_url: None,
        document_id: None,
        synced_to_device: false,
        last_sync: None,
    }
}

impl Bookmark {
    /// The article that this is, under an id, at a time.
    pub fn to_article(&self, id: String, at: Timestamp) -> (r: Article)
        ensures
            r@ == article_of(*self, id@, at),
    {
        let time = match from_unix(self.time) {
            Some(t) => t,
            None => at,
        };
        let tags: Vec<String> = Vec::new();
        assert(crate::text::texts(tags@) =~= Seq::empty());
        Article {
            id,
            provider: ReadLaterProvider::Instapaper,
            provider_id: decimal_i64(self.bookmark_id),
            url: self.url.clone(),
            title: self.title.clone(),
            excerpt: self.description.clone(),
            author: None,
            word_count: None,
            reading_time_minutes: None,
            tags,
            status: match self.progress {
                Progress::Finished => ReadStatus::Read,
                Progress::Started => ReadStatus::InProgress,
                Progress::Unstarted => ReadStatus::Unread,
            },
            favorite: same(self.starred.as_str(), "1"),
            added_at: time,
            updated_at: time,
            read_at: if self.progress == Progress::Finished {
                Some(at)
            } else {
                None
            },
            content: None,
            image_url: None,
            document_id: None,
            synced_to_device: false,
            last_sync: None,
        }
    }
}

/// Whether `a` is the article that a bookmark is, under some id, at some time.
pub open spec fn is_article_of(b: Bookmark, a: crate::readlater::ArticleView) -> bool {
    exists|id: Seq<char>, at: Timestamp|
        id.len() == 36 && at.valid() && a == #[trigger] article_of(b, id, at)
}

/// An entry of Instapaper's list: a bookmark, or something else that is no article.
#[derive(Debug)]
pub enum InstapaperItem {
    Bookmark(Bookmark),
    Meta,
}

/// The bookmarks of a list.
pub open spec fn bookmarks(items: Seq<InstapaperItem>) -> Seq<Bookmark>
    decreases items.len(),
{
    if items.len() == 0 {
        Seq::empty()
    } else {
        let before = bookmarks(items.drop_last());
        match items.last() {
            InstapaperItem::Bookmark(b) => before.push(b),
            InstapaperItem::Meta => before,
        }
    }
}

/// The articles of a list, each under an id of its own.
pub fn articles(items: &Vec<InstapaperItem>) -> (r: Vec<Article>)
    ensures
        r@.len() == bookmarks(items@).len(),
        forall|i: int|
            0 <= i < r@.len() ==> is_article_of(bookmarks(items@)[i], (#[trigger] r@[i])@),
{
    let mut out: Vec<Article> = Vec::new();
    let mut i: usize = 0;
    assert(items@.take(0) =~= Seq::empty());
    while i < items.len()
        invariant
            i <= items@.len(),
            out@.len() == bookmarks(items@.take(i as int)).len(),
            forall|k: int|
                0 <= k < out@.len() ==> is_article_of(
                    bookmarks(items@.take(i as int))[k],
                    (#[trigger] out@[k])@,
                ),
        decreases items@.len() - i,
    {
        let ghost was = out@;
        let ghost before = bookmarks(items@.take(i as int));
        assert(items@.take(i as int + 1).drop_last() =~= items@.take(i as int));
        if let InstapaperItem::Bookmark(b) = &items[i] {
            let id = random_uuid();
            let at = now();
            let ghost text = id@;
            out.push(b.to_article(id, at));
            assert(out@[was.len() as int]@ == article_of(*b, text, at));
            assert(bookmarks(items@.take(i as int + 1)) == before.push(*b));
            assert(forall|k: int| 0 <= k < was.len() ==> out@[k] == was[k]);
        }
        i += 1;
    }
    assert(items@.take(i as int) =~= items@);
    out
}

/// Where Instapaper is told of a status; nowhere where it keeps it itself.
pub fn status_endpoint(status: ReadStatus) -> (r: Option<&'static str>)
    ensures
        crate::text::text_of_str(r) == (match status {
            ReadStatus::Archived => Some("bookmarks/archive"@),
            ReadStatus::Unread => Some("bookmarks/unarchive"@),
            ReadStatus::Read => None,
            ReadStatus::InProgress => None,
        }),
{
    match status {
        ReadStatus::Archived => Some("bookmarks/archive"),
        ReadStatus::Unread => Some("bookmarks/unarchive"),
        ReadStatus::Read | ReadStatus::InProgress => None,
    }
}

/// The article that Instapaper answers an addition with, under an id of its own: the first bookmark
/// of the answer, of which the id, the URL and the title count.
pub fn added(first: Option<(i64, String, String)>) -> (r: Result<Article, ReadLaterError>)
    ensures
        match first {
            Some((bookmark_id, url, title)) => r matches Ok(a) && exists|
                id: Seq<char>,
                at: Timestamp,
            |
                id.len() == 36 && at.valid() && a@
                    == #[trigger] crate::readlater::pocket::added_article(
                    ReadLaterProvider::Instapaper,
                    crate::text::signed_decimal(bookmark_id as int),
                    url@,
                    title@,
                    None,
                    Seq::empty(),
                    id,
                    at,
                ),
            None => r matches Err(e) && e@ == crate::readlater::ReadLaterErrorView::Api(
                "No bookmark returned"@,
            ),
        },
{
    match first {
        Some((bookmark_id, url, title)) => {
            let tags: Vec<String> = Vec::new();
            assert(crate::text::texts(tags@) =~= Seq::empty());
            Ok(
                new_article(
                    ReadLaterProvider::Instapaper,
                    decimal_i64(bookmark_id),
                    url,
                    title,
                    None,
                    tags,
                    random_uuid(),
                    now(),
                ),
            )
        },
        None => Err(ReadLaterError::Api("No bookmark returned".to_owned())),
    }
}

/// What Instapaper tells of a bookmark is what the article is taken for.
pub proof fn law_an_article_is_what_instapaper_tells(b: Bookmark, id: Seq<char>, at: Timestamp)
    ensures
        article_of(b, id, at).id == id,
        article_of(b, id, at).provider == ReadLaterProvider::Instapaper,
        b.bookmark_id >= 0 ==> article_of(b, id, at).provider_id == crate::text::decimal(
            b.bookmark_id as nat,
        ),
        article_of(b, id, at).url == b.url@,
        article_of(b, id, at).title == b.title@,
        b.description matches Some(d) ==> article_of(b, id, at).excerpt == Some(d@),
        b.description is None ==> article_of(b, id, at).excerpt is None,
        b.progress == Progress::Finished ==> article_of(b, id, at).status == ReadStatus::Read
            && article_of(b, id, at).read_at == Some(at),
        b.progress == Progress::Started ==> article_of(b, id, at).status == ReadStatus::InProgress,
        b.progress == Progress::Unstarted ==> article_of(b, id, at).status == ReadStatus::Unread,
        b.progress != Progress::Finished ==> article_of(b, id, at).read_at is None,
        article_of(b, id, at).favorite <==> b.starred@ == "1"@,
        crate::clock::MIN_SECONDS <= b.time <= crate::clock::MAX_SECONDS ==> article_of(
            b,
            id,
            at,
        ).added_at == (Timestamp { seconds: b.time, nanos: 0 }) && article_of(b, id, at).updated_at
            == (Timestamp { seconds: b.time, nanos: 0 }),
        !(crate::clock::MIN_SECONDS <= b.time <= crate::clock::MAX_SECONDS) ==> article_of(
            b,
            id,
            at,
        ).added_at == at,
        !article_of(b, id, at).synced_to_device,
        article_of(b, id, at).document_id is None,
{
}

/// Of a name that is told twice the last value counts; a name that is not told has none.
pub proof fn law_the_last_value_of_a_name_counts(
    pairs: Seq<(String, String)>,
    last: (String, String),
    name: Seq<char>,
)
    ensures
        last_value(Seq::empty(), name) is None,
        last.0@ == name ==> last_value(pairs.push(last), name) == Some(last.1@),
        last.0@ != name ==> last_value(pairs.push(last), name) == last_value(pairs, name),
{
    assert(pairs.push(last).drop_last() =~= pairs);
}

/// A listing holds its bookmarks, in order, and nothing of what else it tells.
pub proof fn law_a_listing_holds_its_bookmarks(items: Seq<InstapaperItem>, b: Bookmark)
    ensures
        bookmarks(Seq::empty()).len() == 0,
        bookmarks(items.push(InstapaperItem::Bookmark(b))) == bookmarks(items).push(b),
        bookmarks(items.push(InstapaperItem::Meta)) == bookmarks(items),
{
    assert(items.push(InstapaperItem::Bookmark(b)).drop_last() =~= items);
    assert(items.push(InstapaperItem::Meta).drop_last() =~= items);
}

/// A login went well exactly where the answer tells a token and its secret; the account then has
/// both, the last that were told, and the name it was logged in with.
pub proof fn law_a_login_gives_a_token_and_its_secret(
    r: Result<ProviderConfig, ReadLaterError>,
    pairs: Seq<(String, String)>,
    username: Seq<char>,
)
    requires
        is_xauth_outcome(r, pairs, username),
    ensures
        r is Ok <==> last_value(pairs, "oauth_token"@) is Some && last_value(
            pairs,
            "oauth_token_secret"@,
        ) is Some,
        r matches Ok(c) ==> (c matches ProviderConfig::Instapaper {
            oauth_token: Some(t),
            oauth_token_secret: Some(s),
            username: Some(u),
        } && last_value(pairs, "oauth_token"@) == Some(t@) && last_value(
            pairs,
            "oauth_token_secret"@,
        ) == Some(s@) && u@ == username),
        r matches Err(e) ==> e is OAuth,
{
}

} // verus!

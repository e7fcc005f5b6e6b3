//! Pocket: what is asked of its API, and what its answers mean.

use vstd::prelude::*;
use vstd::string::*;

use crate::clock::{from_unix, now, Timestamp};
use crate::codec::random_uuid;
use crate::integrations::http::status_line;
use crate::integrations::oauth::is_success;
use crate::integrations::walk::copy;
use crate::readlater::convert::{escape_html, safe_href};
use crate::readlater::{
    prefixed, Article, ArticleContent, OAuthState, ProviderConfig, ReadLaterError,
    ReadLaterProvider, ReadStatus,
};
use crate::text::{join_strings, or_empty_string, parse_i64, parse_u32, same};

verus! {

pub const API_BASE: &'static str = "https://getpocket.com/v3";

/// Pocket.
#[derive(Debug)]
pub struct PocketProvider;

/// A value of a JSON request.
#[derive(Debug)]
pub enum JsonValue {
    Text(String),
    Number(i64),
}

/// [`JsonValue`] with its text as characters.
pub enum JsonValueView {
    Text(Seq<char>),
    Number(i64),
}

impl View for JsonValue {
    type V = JsonValueView;

    open spec fn view(&self) -> JsonValueView {
        match self {
            JsonValue::Text(s) => JsonValueView::Text(s@),
            JsonValue::Number(n) => JsonValueView::Number(*n),
        }
    }
}

/// The members of a JSON request.
pub open spec fn members(v: Seq<(&str, JsonValue)>) -> Seq<(Seq<char>, JsonValueView)> {
    v.map_values(|m: (&str, JsonValue)| (m.0@, m.1@))
}

/// An error for a response that is no success.
pub open spec fn failure(
    status: u16,
    what: Seq<char>,
) -> Option<crate::readlater::ReadLaterErrorView> {
    if crate::integrations::oauth::success(status) {
        None
    } else {
        Some(
            crate::readlater::ReadLaterErrorView::Api(
                what + crate::integrations::http::status_text(status),
            ),
        )
    }
}

/// The error for a response that is no success: `what`, and the status.
pub fn refused(status: u16, what: &str) -> (r: Option<ReadLaterError>)
    requires
        100 <= status <= 999,
    ensures
        match r {
            Some(e) => failure(status, what@) == Some(e@),
            None => failure(status, what@) is None,
        },
{
    if is_success(status) {
        None
    } else {
        Some(ReadLaterError::Api(prefixed(what, status_line(status).as_str())))
    }
}

/// The error for a response to an OAuth request that is no success.
pub fn oauth_refused(status: u16, what: &str) -> (r: Option<ReadLaterError>)
    requires
        100 <= status <= 999,
    ensures
        if crate::integrations::oauth::success(status) {
            r is None
        } else {
            r matches Some(e) && e@ == crate::readlater::ReadLaterErrorView::OAuth(
                what@ + crate::integrations::http::status_text(status),
            )
        },
{
    if is_success(status) {
        None
    } else {
        Some(ReadLaterError::OAuth(prefixed(what, status_line(status).as_str())))
    }
}

/// The consumer key and the access token of a configuration; `invalid` where it is not Pocket's.
pub fn credentials<'a>(config: &'a ProviderConfig, invalid: &str) -> (r: Result<
    (&'a str, &'a str),
    ReadLaterError,
>)
    ensures
        match *config {
            ProviderConfig::Pocket { consumer_key, access_token, .. } => match access_token {
                Some(t) => r matches Ok((k, a)) && k@ == consumer_key@ && a@ == t@,
                None => r matches Err(e) && e@
                    == crate::readlater::ReadLaterErrorView::AuthRequired("Pocket"@),
            },
            _ => r matches Err(e) && e@ == crate::readlater::ReadLaterErrorView::Api(invalid@),
        },
{
    match config {
        ProviderConfig::Pocket { consumer_key, access_token, .. } => match access_token {
            Some(t) => Ok((consumer_key.as_str(), t.as_str())),
            None => Err(ReadLaterError::AuthRequired("Pocket".to_owned())),
        },
        _ => Err(ReadLaterError::Api(invalid.to_owned())),
    }
}

/// The request for all articles, or those that changed since a time.
pub fn fetch_request(config: &ProviderConfig, since: Option<Timestamp>) -> (r: Result<
    Vec<(&'static str, JsonValue)>,
    ReadLaterError,
>)
    ensures
        match *config {
            ProviderConfig::Pocket { consumer_key, access_token, .. } => match access_token {
                Some(t) => r matches Ok(m) && members(m@) == seq![
                    ("consumer_key"@, JsonValueView::Text(consumer_key@)),
                    ("access_token"@, JsonValueView::Text(t@)),
                    ("state"@, JsonValueView::Text("all"@)),
                    ("detailType"@, JsonValueView::Text("complete"@)),
                    ("sort"@, JsonValueView::Text("newest"@)),
                ] + (match since {
                    Some(s) => seq![("since"@, JsonValueView::Number(s.seconds))],
                    None => Seq::empty(),
                }),
                None => r matches Err(e) && e@
                    == crate::readlater::ReadLaterErrorView::AuthRequired("Pocket"@),
            },
            _ => r matches Err(e) && e@ == crate::readlater::ReadLaterErrorView::Api(
                "Invalid config for Pocket"@,
            ),
        },
{
    let (key, token) = match credentials(config, "Invalid config for Pocket") {
        Ok(c) => c,
        Err(e) => {
            return Err(e);
        },
    };
    let mut out: Vec<(&'static str, JsonValue)> = Vec::new();
    out.push(("consumer_key", JsonValue::Text(key.to_owned())));
    out.push(("access_token", JsonValue::Text(token.to_owned())));
    out.push(("state", JsonValue::Text("all".to_owned())));
    out.push(("detailType", JsonValue::Text("complete".to_owned())));
    out.push(("sort", JsonValue::Text("newest".to_owned())));
    if let Some(s) = since {
        out.push(("since", JsonValue::Number(s.seconds)));
    }
    assert(members(out@) =~= seq![
        ("consumer_key"@, JsonValueView::Text(key@)),
        ("access_token"@, JsonValueView::Text(token@)),
        ("state"@, JsonValueView::Text("all"@)),
        ("detailType"@, JsonValueView::Text("complete"@)),
        ("sort"@, JsonValueView::Text("newest"@)),
    ] + (match since {
        Some(s) => seq![("since"@, JsonValueView::Number(s.seconds))],
        None => Seq::empty(),
    }));
    Ok(out)
}

/// The error for a response to the request for articles that is no success.
pub fn fetch_refused(status: u16) -> (r: Option<ReadLaterError>)
    requires
        100 <= status <= 999,
    ensures
        if status == 429 {
            r matches Some(e) && e@ == crate::readlater::ReadLaterErrorView::RateLimited(60)
        } else {
            match r {
                Some(e) => failure(status, "Pocket API error: "@) == Some(e@),
                None => failure(status, "Pocket API error: "@) is None,
            }
        },
{
    if status == 429 {
        Some(ReadLaterError::RateLimited(60))
    } else {
        refused(status, "Pocket API error: ")
    }
}

/// An item of Pocket's list.
#[derive(Debug)]
pub struct PocketItem {
    pub item_id: String,
    pub given_url: String,
    pub given_title: Option<String>,
    pub resolved_title: Option<String>,
    pub excerpt: Option<String>,
    pub word_count: Option<String>,
    pub time_added: String,
    pub time_updated: String,
    pub time_read: Option<String>,
    pub status: String,
    pub favorite: String,
    /// The names of the tags.
    pub tags: Vec<String>,
    /// The name of one of the authors.
    pub author: Option<String>,
    pub image: Option<String>,
}

/// The status that Pocket's code means.
pub open spec fn status_of(code: Seq<char>) -> ReadStatus {
    if code == "1"@ {
        ReadStatus::Archived
    } else if code == "2"@ {
        ReadStatus::Read
    } else {
        ReadStatus::Unread
    }
}

/// The word count that a text tells.
pub open spec fn words_of(text: Option<String>) -> Option<u32> {
    match text {
        Some(t) => if crate::text::is_number(t@, u32::MAX as nat) {
            Some(crate::text::number(crate::text::unsigned(t@)) as u32)
        } else {
            None
        },
        None => None,
    }
}

/// The minutes that reading takes, at 200 words each; at least one.
pub open spec fn minutes_for(words: Option<u32>) -> Option<u32> {
    match words {
        Some(w) => Some(
            if w / 200 > 1 {
                w / 200
            } else {
                1
            },
        ),
        None => None,
    }
}

/// A point in time by its seconds, or the present where that cannot be told.
pub open spec fn time_or(seconds: int, at: Timestamp) -> Timestamp {
    if crate::clock::MIN_SECONDS <= seconds <= crate::clock::MAX_SECONDS {
        Timestamp { seconds: seconds as i64, nanos: 0 }
    } else {
        at
    }
}

/// The number that a text is, 0 for none.
pub open spec fn seconds_in(text: Seq<char>) -> int {
    match crate::text::signed_value(text) {
        Some(n) => n,
        None => 0,
    }
}

/// When an item was read: a time that is after the start of 1970.
pub open spec fn read_time(text: Option<String>) -> Option<Timestamp> {
    match text {
        Some(t) => match crate::text::signed_value(t@) {
            Some(n) => if 0 < n <= crate::clock::MAX_SECONDS {
                Some(Timestamp { seconds: n as i64, nanos: 0 })
            } else {
                None
            },
            None => None,
        },
        None => None,
    }
}

/// The article that an item is, under an id, at a time.
pub open spec fn article_of(
    item: PocketItem,
    id: Seq<char>,
    at: Timestamp,
) -> crate::readlater::ArticleView {
    crate::readlater::ArticleView {
        id,
        provider: ReadLaterProvider::Pocket,
        provider_id: item.item_id@,
        url: item.given_url@,
        title: match item.resolved_title {
            Some(t) => t@,
            None => crate::text::or_empty(item.given_title),
        },
        excerpt: crate::text::text_of(item.excerpt),
        author: crate::text::text_of(item.author),
        word_count: words_of(item.word_count),
        reading_time_minutes: minutes_for(words_of(item.word_count)),
        tags: crate::text::texts(item.tags@),
        status: status_of(item.status@),
        favorite: item.favorite@ == "1"@,
        added_at: time_or(seconds_in(item.time_added@), at),
        updated_at: time_or(seconds_in(item.time_updated@), at),
        read_at: read_time(item.time_read),
        content: None,
        image_url: crate::text::text_of(item.image),
        document_id: None,
        synced_to_device: false,
        last_sync: None,
    }
}

fn time_of(text: &str, at: Timestamp) -> (r: Timestamp)
    ensures
        r == time_or(seconds_in(text@), at),
{
    let seconds: i64 = match parse_i64(text) {
        Some(n) => n,
        None => 0,
    };
    match from_unix(seconds) {
        Some(t) => t,
        None => at,
    }
}

impl PocketItem {
    /// The article that this is, under an id, at a time.
    pub fn to_article(&self, id: String, at: Timestamp) -> (r: Article)
        ensures
            r@ == article_of(*self, id@, at),
    {
        let word_count: Option<u32> = match &self.word_count {
            Some(w) => parse_u32(w.as_str()),
            None => None,
        };
        let reading_time_minutes: Option<u32> = match word_count {
            Some(w) => Some(
                if w / 200 > 1 {
                    w / 200
                } else {
                    1
                },
            ),
            None => None,
        };
        let status = if same(self.status.as_str(), "1") {
            ReadStatus::Archived
        } else if same(self.status.as_str(), "2") {
            ReadStatus::Read
        } else {
            ReadStatus::Unread
        };
        let read_at = match &self.time_read {
            Some(t) => match parse_i64(t.as_str()) {
                Some(n) => {
                    if n > 0 {
                        from_unix(n)
                    } else {
                        None
                    }
                },
                None => None,
            },
            None => None,
        };
        let title = match &self.resolved_title {
            Some(t) => t.clone(),
            None => or_empty_string(self.given_title.clone()),
        };
        Article {
            id,
            provider: ReadLaterProvider::Pocket,
            provider_id: self.item_id.clone(),
            url: self.given_url.clone(),
            title,
            excerpt: self.excerpt.clone(),
            author: self.author.clone(),
            word_count,
            reading_time_minutes,
            tags: copy(&self.tags),
            status,
            favorite: same(self.favorite.as_str(), "1"),
            added_at: time_of(self.time_added.as_str(), at),
            updated_at: time_of(self.time_updated.as_str(), at),
            read_at,
            content: None,
            image_url: self.image.clone(),
            document_id: None,
            synced_to_device: false,
            last_sync: None,
        }
    }
}

/// Whether `a` is the article that an item is, under some id, at some time.
pub open spec fn is_article_of(item: PocketItem, a: crate::readlater::ArticleView) -> bool {
    exists|id: Seq<char>, at: Timestamp|
        id.len() == 36 && at.valid() && a == #[trigger] article_of(item, id, at)
}

/// The articles that items are, each under an id of its own.
pub fn articles(items: &Vec<PocketItem>) -> (r: Vec<Article>)
    ensures
        r@.len() == items@.len(),
        forall|i: int| 0 <= i < r@.len() ==> is_article_of(items@[i], (#[trigger] r@[i])@),
{
    let mut out: Vec<Article> = Vec::new();
    let mut i: usize = 0;
    while i < items.len()
        invariant
            i <= items@.len(),
            out@.len() == i,
            forall|k: int| 0 <= k < i ==> is_article_of(items@[k], (#[trigger] out@[k])@),
        decreases items@.len() - i,
    {
        let ghost was = out@;
        let id = random_uuid();
        let at = now();
        let ghost text = id@;
        out.push(items[i].to_article(id, at));
        assert(out@[i as int]@ == article_of(items@[i as int], text, at));
        assert(forall|k: int| 0 <= k < i ==> out@[k] == was[k]);
        i += 1;
    }
    out
}

/// The page that stands for an article, of which Pocket tells no content.
pub open spec fn page_of(a: crate::readlater::ArticleView) -> Seq<char> {
    let title = crate::readlater::convert::html_text(a.title);
    "<html><head><title>"@ + title + "</title></head><body><h1>"@ + title + "</h1><p>"@
        + crate::readlater::convert::html_text(
        match a.excerpt {
            Some(e) => e,
            None => Seq::empty(),
        },
    ) + "</p><p><a href=\""@ + crate::readlater::convert::html_text(
        crate::readlater::convert::followable(a.url),
    ) + "\">Read original</a></p></body></html>"@
}

/// Pocket doesn't provide article content directly via API: a page with the excerpt and a link.
pub fn article_content(article: &Article) -> (r: ArticleContent)
    ensures
        r.html@ == page_of(article@),
        r.images@.len() == 0,
        r.styles is None,
{
    let title = escape_html(article.title.as_str());
    let excerpt = or_empty_string(article.excerpt.clone());
    let mut html = "<html><head><title>".to_owned();
    html.push_str(title.as_str());
    html.push_str("</title></head><body><h1>");
    html.push_str(title.as_str());
    html.push_str("</h1><p>");
    html.push_str(escape_html(excerpt.as_str()).as_str());
    html.push_str("</p><p><a href=\"");
    html.push_str(escape_html(safe_href(article.url.as_str()).as_str()).as_str());
    html.push_str("\">Read original</a></p></body></html>");
    ArticleContent { html, images: Vec::new(), styles: None }
}

/// What Pocket is told of a status; nothing while reading is in progress.
pub fn status_action(status: ReadStatus) -> (r: Option<&'static str>)
    ensures
        crate::text::text_of_str(r) == (match status {
            ReadStatus::Archived => Some("archive"@),
            ReadStatus::Read => Some("archive"@),
            ReadStatus::Unread => Some("readd"@),
            ReadStatus::InProgress => None,
        }),
{
    match status {
        ReadStatus::Archived => Some("archive"),
        ReadStatus::Read => Some("archive"),
        ReadStatus::Unread => Some("readd"),
        ReadStatus::InProgress => None,
    }
}

/// The tags of an article that is added.
pub fn tag_list(tags: &Vec<String>) -> (r: String)
    ensures
        r@ == crate::text::join_with(crate::text::texts(tags@), ","@),
{
    join_strings(tags, ",")
}

/// The article that was just added, under an id, at a time.
pub open spec fn added_article(
    provider: ReadLaterProvider,
    provider_id: Seq<char>,
    url: Seq<char>,
    title: Seq<char>,
    excerpt: Option<Seq<char>>,
    tags: Seq<Seq<char>>,
    id: Seq<char>,
    at: Timestamp,
) -> crate::readlater::ArticleView {
    crate::readlater::ArticleView {
        id,
        provider,
        provider_id,
        url,
        title,
        excerpt,
        author: None,
        word_count: None,
        reading_time_minutes: None,
        tags,
        status: ReadStatus::Unread,
        favorite: false,
        added_at: at,
        updated_at: at,
        read_at: None,
        content: None,
        image_url: None,
        document_id: None,
        synced_to_device: false,
        last_sync: None,
    }
}

/// An article that was just added, under an id, at a time.
pub fn new_article(
    provider: ReadLaterProvider,
    provider_id: String,
    url: String,
    title: String,
    excerpt: Option<String>,
    tags: Vec<String>,
    id: String,
    at: Timestamp,
) -> (r: Article)
    ensures
        r@ == added_article(
            provider,
            provider_id@,
            url@,
            title@,
            crate::text::text_of(excerpt),
            crate::text::texts(tags@),
            id@,
            at,
        ),
{
    Article {
        id,
        provider,
        provider_id,
        url,
        title,
        excerpt,
        author: None,
        word_count: None,
        reading_time_minutes: None,
        tags,
        status: ReadStatus::Unread,
        favorite: false,
        added_at: at,
        updated_at: at,
        read_at: None,
        content: None,
        image_url: None,
        document_id: None,
        synced_to_device: false,
        last_sync: None,
    }
}

/// The article that Pocket answers an addition with, under an id of its own.
pub fn added(
    item_id: String,
    given_url: String,
    title: Option<String>,
    excerpt: Option<String>,
    tags: &Vec<String>,
) -> (r: Article)
    ensures
        exists|id: Seq<char>, at: Timestamp|
            id.len() == 36 && at.valid() && r@ == #[trigger] added_article(
                ReadLaterProvider::Pocket,
                item_id@,
                given_url@,
                crate::text::or_empty(title),
                crate::text::text_of(excerpt),
                crate::text::texts(tags@),
                id,
                at,
            ),
{
    let title = or_empty_string(title);
    new_article(
        ReadLaterProvider::Pocket,
        item_id,
        given_url,
        title,
        excerpt,
        copy(tags),
        random_uuid(),
        now(),
    )
}

/// The state of a flow that begins with a request token.
pub fn start_oauth(request_token: String, redirect_uri: &str, at: Timestamp) -> (r: OAuthState)
    ensures
        r.provider == ReadLaterProvider::Pocket,
        r.request_token == Some(request_token),
        r.redirect_uri@ == redirect_uri@,
        r.created_at == at,
{
    OAuthState {
        provider: ReadLaterProvider::Pocket,
        request_token: Some(request_token),
        redirect_uri: redirect_uri.to_owned(),
        created_at: at,
    }
}

/// The request token that a flow began with.
pub fn request_token(state: &OAuthState) -> (r: Result<&str, ReadLaterError>)
    ensures
        match state.request_token {
            Some(t) => r matches Ok(s) && s@ == t@,
            None => r matches Err(e) && e@ == crate::readlater::ReadLaterErrorView::OAuth(
                "Missing request token"@,
            ),
        },
{
    match &state.request_token {
        Some(t) => Ok(t.as_str()),
        None => Err(ReadLaterError::OAuth("Missing request token".to_owned())),
    }
}

/// What Pocket tells of an item is what the article is taken for: its own title before the one it
/// was saved under, its words as a number and the minutes that takes to read at two hundred a
/// minute, and its times where they are times.
pub proof fn law_an_article_is_what_pocket_tells(
    item: PocketItem,
    id: Seq<char>,
    at: Timestamp,
    n: nat,
)
    requires
        n <= u32::MAX,
    ensures
        article_of(item, id, at).id == id,
        article_of(item, id, at).provider == ReadLaterProvider::Pocket,
        article_of(item, id, at).provider_id == item.item_id@,
        article_of(item, id, at).url == item.given_url@,
        item.resolved_title matches Some(t) ==> article_of(item, id, at).title == t@,
        item.resolved_title is None ==> match item.given_title {
            Some(t) => article_of(item, id, at).title == t@,
            None => article_of(item, id, at).title.len() == 0,
        },
        item.excerpt matches Some(e) ==> article_of(item, id, at).excerpt == Some(e@),
        item.excerpt is None ==> article_of(item, id, at).excerpt is None,
        item.author matches Some(a) ==> article_of(item, id, at).author == Some(a@),
        item.author is None ==> article_of(item, id, at).author is None,
        item.image matches Some(i) ==> article_of(item, id, at).image_url == Some(i@),
        item.word_count matches Some(t) && t@ == crate::text::decimal(n) ==> {
            &&& article_of(item, id, at).word_count == Some(n as u32)
            &&& article_of(item, id, at).reading_time_minutes == Some(
                (if n < 400 {
                    1
                } else {
                    n / 200
                }) as u32,
            )
        },
        item.word_count is None ==> article_of(item, id, at).word_count is None && article_of(
            item,
            id,
            at,
        ).reading_time_minutes is None,
        article_of(item, id, at).tags.len() == item.tags@.len(),
        forall|i: int|
            0 <= i < item.tags@.len() ==> #[trigger] article_of(item, id, at).tags[i]
                == item.tags@[i]@,
        item.status@ == "1"@ <==> article_of(item, id, at).status == ReadStatus::Archived,
        item.status@ == "2"@ <==> article_of(item, id, at).status == ReadStatus::Read,
        article_of(item, id, at).favorite <==> item.favorite@ == "1"@,
        item.time_added@ == crate::text::decimal(n) ==> article_of(item, id, at).added_at == (
        Timestamp { seconds: n as i64, nanos: 0 }),
        item.time_updated@ == crate::text::decimal(n) ==> article_of(item, id, at).updated_at == (
        Timestamp { seconds: n as i64, nanos: 0 }),
        item.time_read matches Some(t) && t@ == crate::text::decimal(n) ==> article_of(
            item,
            id,
            at,
        ).read_at == (if n > 0 {
            Some(Timestamp { seconds: n as i64, nanos: 0 })
        } else {
            None
        }),
        item.time_read is None ==> article_of(item, id, at).read_at is None,
        !article_of(item, id, at).synced_to_device,
        article_of(item, id, at).document_id is None,
        article_of(item, id, at).last_sync is None,
        article_of(item, id, at).content is None,
{
    crate::text::law_numbers_read_back(n);
    crate::text::law_signs_and_zeros(n);
    assert(crate::text::is_number(crate::text::decimal(n), u32::MAX as nat));
    assert('0' <= crate::text::decimal(n)[0]);
    reveal_strlit("1");
    reveal_strlit("2");
    assert("1"@[0] != "2"@[0]);
}

/// An item that was just added is unread, under the address and the name it was added with, from
/// the moment it was added.
pub proof fn law_an_added_article_is_unread(
    provider: ReadLaterProvider,
    provider_id: Seq<char>,
    url: Seq<char>,
    title: Seq<char>,
    excerpt: Option<Seq<char>>,
    tags: Seq<Seq<char>>,
    id: Seq<char>,
    at: Timestamp,
)
    ensures
        ({
            let a = added_article(provider, provider_id, url, title, excerpt, tags, id, at);
            &&& a.id == id
            &&& a.provider == provider
            &&& a.provider_id == provider_id
            &&& a.url == url
            &&& a.title == title
            &&& a.excerpt == excerpt
            &&& a.tags == tags
            &&& a.status == ReadStatus::Unread
            &&& a.added_at == at
            &&& a.updated_at == at
            &&& a.read_at is None
            &&& !a.favorite
            &&& !a.synced_to_device
        }),
{
}

/// A request went well exactly where its status is one of the two hundreds.
pub proof fn law_failures_tell_their_status(status: u16, what: Seq<char>)
    ensures
        failure(status, what) is None <==> 200 <= status <= 299,
        failure(status, what) matches Some(e) ==> e == crate::readlater::ReadLaterErrorView::Api(
            what + crate::integrations::http::status_text(status),
        ),
{
}

/// The page of an article that has no content of its own shows its title, its excerpt and the link
/// to the original, each escaped.
pub proof fn law_a_page_shows_the_article(a: crate::readlater::ArticleView)
    ensures
        exists|rest: Seq<char>|
            page_of(a) == #[trigger] ("<html><head><title>"@ + crate::readlater::convert::html_text(
                a.title,
            ) + "</title></head><body><h1>"@ + crate::readlater::convert::html_text(a.title)
                + "</h1><p>"@ + rest),
        a.excerpt matches Some(e) ==> crate::text::holds(
            page_of(a),
            crate::readlater::convert::html_text(e),
        ),
        crate::text::holds(
            page_of(a),
            crate::readlater::convert::html_text(crate::readlater::convert::followable(a.url)),
        ),
{
    let title = crate::readlater::convert::html_text(a.title);
    let excerpt = crate::readlater::convert::html_text(
        match a.excerpt {
            Some(e) => e,
            None => Seq::empty(),
        },
    );
    let link = crate::readlater::convert::html_text(crate::readlater::convert::followable(a.url));
    let start = "<html><head><title>"@ + title + "</title></head><body><h1>"@ + title
        + "</h1><p>"@;
    let before_link = "</p><p><a href=\""@;
    let end = "\">Read original</a></p></body></html>"@;
    let page = page_of(a);
    assert(page == start + excerpt + before_link + link + end);
    assert(page =~= start + (excerpt + before_link + link + end));
    let i = start.len() as int;
    assert(page.subrange(i, i + excerpt.len()) =~= excerpt);
    let j = start.len() + excerpt.len() + before_link.len() as int;
    assert(page.subrange(j, j + link.len()) =~= link);
}

} // verus!

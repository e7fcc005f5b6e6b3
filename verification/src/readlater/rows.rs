//! Articles and OAuth states as rows of a database: what is written of them, and what is read back.

use vstd::prelude::*;
use vstd::string::*;

use crate::clock::{to_rfc3339, Timestamp};
use crate::readlater::wallabag::time_or_now;
use crate::readlater::{
    Article, OAuthState, ProviderAccount, ProviderConfig, ProviderSecrets, ReadLaterProvider,
    ReadStatus, SyncSettings,
};
use crate::text::to_chars;

verus! {

/// What `serde_json::to_string` writes for a list of texts.
pub uninterp spec fn strings_json(v: Seq<Seq<char>>) -> Seq<char>;

/// The list of texts that `serde_json::from_str` reads out of a text, if it is one.
pub uninterp spec fn json_strings(text: Seq<char>) -> Option<Seq<Seq<char>>>;

/// `serde_json::to_string` of a list of texts, which does not fail: the text is a function of the
/// list, named [`strings_json`], and `serde_json::from_str` reads the list out of it again.
#[verifier::external_body]
fn to_json(v: &Vec<String>) -> (r: String)
    ensures
        r@ == strings_json(crate::text::texts(v@)),
        json_strings(r@) == Some(crate::text::texts(v@)),
{
    serde_json::to_string(v).unwrap()
}

/// `serde_json::from_str` into a list of texts: whether the text is one, and which, is a function of
/// the text, named [`json_strings`].
#[verifier::external_body]
fn from_json(text: &str) -> (r: Option<Vec<String>>)
    ensures
        match r {
            Some(v) => json_strings(text@) == Some(crate::text::texts(v@)),
            None => json_strings(text@) is None,
        },
{
    serde_json::from_str(text).ok()
}

/// An article's row.
#[derive(Debug)]
pub struct ArticleRow {
    pub id: String,
    pub provider: String,
    pub provider_id: String,
    pub url: String,
    pub title: String,
    pub excerpt: Option<String>,
    pub author: Option<String>,
    pub word_count: Option<u32>,
    pub reading_time_minutes: Option<u32>,
    pub tags: Option<String>,
    pub status: String,
    pub favorite: i32,
    pub added_at: String,
    pub updated_at: String,
    pub read_at: Option<String>,
    pub image_url: Option<String>,
    pub document_id: Option<String>,
    pub synced_to_device: i32,
    pub last_sync: Option<String>,
}

/// Whether `text` is a time as it is written; of the years of four digits it tells the same time.
pub open spec fn writes_time(text: Seq<char>, t: Timestamp) -> bool {
    &&& text == crate::clock::rfc3339(t.seconds, t.nanos)
    &&& t.four_digit_year() ==> crate::clock::told(text) == Some(t)
}

/// Whether `text` is a time as it is written, if there is one.
pub open spec fn writes_option(text: Option<String>, t: Option<Timestamp>) -> bool {
    match (text, t) {
        (Some(s), Some(t)) => writes_time(s@, t),
        (None, None) => true,
        _ => false,
    }
}

/// Whether a row is what is written of an article; its content is not.
pub open spec fn writes(row: ArticleRow, a: crate::readlater::ArticleView) -> bool {
    &&& row.id@ == a.id
    &&& row.provider@ == crate::readlater::provider_name(a.provider)
    &&& row.provider_id@ == a.provider_id
    &&& row.url@ == a.url
    &&& row.title@ == a.title
    &&& crate::text::text_of(row.excerpt) == a.excerpt
    &&& crate::text::text_of(row.author) == a.author
    &&& row.word_count == a.word_count
    &&& row.reading_time_minutes == a.reading_time_minutes
    &&& row.tags matches Some(t) && t@ == strings_json(a.tags) && json_strings(t@) == Some(a.tags)
    &&& row.status@ == crate::readlater::status_name(a.status)
    &&& row.favorite == (if a.favorite {
        1i32
    } else {
        0i32
    })
    &&& writes_time(row.added_at@, a.added_at)
    &&& writes_time(row.updated_at@, a.updated_at)
    &&& writes_option(row.read_at, a.read_at)
    &&& crate::text::text_of(row.image_url) == a.image_url
    &&& crate::text::text_of(row.document_id) == a.document_id
    &&& row.synced_to_device == (if a.synced_to_device {
        1i32
    } else {
        0i32
    })
    &&& writes_option(row.last_sync, a.last_sync)
}

/// Whether all times of an article can be told.
pub open spec fn times_valid(a: crate::readlater::ArticleView) -> bool {
    &&& a.added_at.valid()
    &&& a.updated_at.valid()
    &&& a.read_at matches Some(t) ==> t.valid()
    &&& a.last_sync matches Some(t) ==> t.valid()
}

fn time_text(t: Option<Timestamp>) -> (r: Option<String>)
    requires
        t matches Some(t) ==> t.valid(),
    ensures
        writes_option(r, t),
{
    match t {
        Some(t) => Some(to_rfc3339(t)),
        None => None,
    }
}

/// What is written of an article.
pub fn article_row(a: &Article) -> (r: ArticleRow)
    requires
        times_valid(a@),
    ensures
        writes(r, a@),
{
    ArticleRow {
        id: a.id.clone(),
        provider: a.provider.name().to_owned(),
        provider_id: a.provider_id.clone(),
        url: a.url.clone(),
        title: a.title.clone(),
        excerpt: a.excerpt.clone(),
        author: a.author.clone(),
        word_count: a.word_count,
        reading_time_minutes: a.reading_time_minutes,
        tags: Some(to_json(&a.tags)),
        status: a.status.name().to_owned(),
        favorite: if a.favorite {
            1
        } else {
            0
        },
        added_at: to_rfc3339(a.added_at),
        updated_at: to_rfc3339(a.updated_at),
        read_at: time_text(a.read_at),
        image_url: a.image_url.clone(),
        document_id: a.document_id.clone(),
        synced_to_device: if a.synced_to_device {
            1
        } else {
            0
        },
        last_sync: time_text(a.last_sync),
    }
}

/// A column that does not hold what it should.
#[derive(Debug, Clone, Copy, PartialEq, Eq, Structural)]
pub enum BadColumn {
    Provider,
    Status,
}

/// The times that texts tell, or the present.
pub open spec fn option_told(text: Option<String>, at: Timestamp) -> Option<Timestamp> {
    match text {
        Some(s) => Some(crate::readlater::wallabag::time_told(s@, at)),
        None => None,
    }
}

/// The tags that a column tells; none where it cannot be read.
pub open spec fn tags_told(text: Option<String>) -> Seq<Seq<char>> {
    match text {
        Some(t) => match json_strings(t@) {
            Some(v) => v,
            None => Seq::empty(),
        },
        None => Seq::empty(),
    }
}

/// The article that a row tells, at a time, its provider and status being `p` and `s`.
pub open spec fn told_article(
    row: ArticleRow,
    p: ReadLaterProvider,
    s: ReadStatus,
    at: Timestamp,
) -> crate::readlater::ArticleView {
    crate::readlater::ArticleView {
        id: row.id@,
        provider: p,
        provider_id: row.provider_id@,
        url: row.url@,
        title: row.title@,
        excerpt: crate::text::text_of(row.excerpt),
        author: crate::text::text_of(row.author),
        word_count: row.word_count,
        reading_time_minutes: row.reading_time_minutes,
        tags: tags_told(row.tags),
        status: s,
        favorite: row.favorite != 0,
        added_at: crate::readlater::wallabag::time_told(row.added_at@, at),
        updated_at: crate::readlater::wallabag::time_told(row.updated_at@, at),
        read_at: option_told(row.read_at, at),
        content: None,
        image_url: crate::text::text_of(row.image_url),
        document_id: crate::text::text_of(row.document_id),
        synced_to_device: row.synced_to_device != 0,
        last_sync: option_told(row.last_sync, at),
    }
}

/// Whether a text is of small letters alone.
pub open spec fn is_word(s: Seq<char>) -> bool {
    forall|i: int| 0 <= i < s.len() ==> 'a' <= #[trigger] s[i] <= 'z'
}

/// The name that a column tells: what its text stands for between the quotes of a JSON string, which
/// is itself where it is a word.
pub open spec fn unquoted(column: Seq<char>) -> Option<Seq<char>> {
    if is_word(column) {
        Some(column)
    } else {
        match json_strings("[\""@ + column + "\"]"@) {
            Some(v) => if v.len() == 1 {
                Some(v[0])
            } else {
                None
            },
            None => None,
        }
    }
}

fn word(s: &str) -> (r: bool)
    ensures
        r == is_word(s@),
{
    let cs = to_chars(s);
    let mut i: usize = 0;
    while i < cs.len()
        invariant
            cs@ == s@,
            i <= cs@.len(),
            forall|j: int| 0 <= j < i ==> 'a' <= #[trigger] s@[j] <= 'z',
        decreases cs@.len() - i,
    {
        if cs[i] < 'a' || 'z' < cs[i] {
            assert(!('a' <= s@[i as int] <= 'z'));
            return false;
        }
        i += 1;
    }
    true
}

fn unquote(column: &str) -> (r: Option<String>)
    ensures
        crate::text::text_of(r) == unquoted(column@),
{
    if word(column) {
        return Some(column.to_owned());
    }
    let mut list = "[\"".to_owned();
    list.push_str(column);
    list.push_str("\"]");
    match from_json(list.as_str()) {
        Some(mut v) => {
            let ghost all = crate::text::texts(v@);
            if v.len() == 1 {
                assert(all[0] == v@[0]@);
                v.pop()
            } else {
                None
            }
        },
        None => None,
    }
}

fn provider_in(column: &str) -> (r: Option<ReadLaterProvider>)
    ensures
        match r {
            Some(p) => unquoted(column@) == Some(crate::readlater::provider_name(p)),
            None => forall|p: ReadLaterProvider|
                unquoted(column@) != Some(#[trigger] crate::readlater::provider_name(p)),
        },
{
    match unquote(column) {
        Some(name) => ReadLaterProvider::named(name.as_str()),
        None => None,
    }
}

fn status_in(column: &str) -> (r: Option<ReadStatus>)
    ensures
        match r {
            Some(s) => unquoted(column@) == Some(crate::readlater::status_name(s)),
            None => forall|s: ReadStatus|
                unquoted(column@) != Some(#[trigger] crate::readlater::status_name(s)),
        },
{
    match unquote(column) {
        Some(name) => ReadStatus::named(name.as_str()),
        None => None,
    }
}

/// Whether `r` is what is read of a row.
pub open spec fn reads(r: Result<Article, BadColumn>, row: ArticleRow, at: Timestamp) -> bool {
    match r {
        Ok(a) => unquoted(row.provider@) == Some(crate::readlater::provider_name(a.provider))
            && unquoted(row.status@) == Some(crate::readlater::status_name(a.status)) && a@
            == told_article(
            row,
            a.provider,
            a.status,
            at,
        ),
        Err(BadColumn::Provider) => forall|p: ReadLaterProvider|
            unquoted(row.provider@) != Some(#[trigger] crate::readlater::provider_name(p)),
        Err(BadColumn::Status) => (exists|p: ReadLaterProvider|
            unquoted(row.provider@) == Some(#[trigger] crate::readlater::provider_name(p))) && (forall|
            s: ReadStatus,
        |
            unquoted(row.status@) != Some(#[trigger] crate::readlater::status_name(s))),
    }
}

/// The article that a row tells; `at` stands for times that cannot be read.
pub fn article_of(row: ArticleRow, at: Timestamp) -> (r: Result<Article, BadColumn>)
    ensures
        reads(r, row, at),
{
    let provider = match provider_in(row.provider.as_str()) {
        Some(p) => p,
        None => {
            return Err(BadColumn::Provider);
        },
    };
    let status = match status_in(row.status.as_str()) {
        Some(s) => s,
        None => {
            return Err(BadColumn::Status);
        },
    };
    let tags = match &row.tags {
        Some(t) => match from_json(t.as_str()) {
            Some(v) => v,
            None => Vec::new(),
        },
        None => Vec::new(),
    };
    assert(crate::text::texts(tags@) =~= tags_told(row.tags));
    let read_at = match &row.read_at {
        Some(s) => Some(time_or_now(s.as_str(), at)),
        None => None,
    };
    let last_sync = match &row.last_sync {
        Some(s) => Some(time_or_now(s.as_str(), at)),
        None => None,
    };
    let added_at = time_or_now(row.added_at.as_str(), at);
    let updated_at = time_or_now(row.updated_at.as_str(), at);
    Ok(
        Article {
            id: row.id,
            provider,
            provider_id: row.provider_id,
            url: row.url,
            title: row.title,
            excerpt: row.excerpt,
            author: row.author,
            word_count: row.word_count,
            reading_time_minutes: row.reading_time_minutes,
            tags,
            status,
            favorite: row.favorite != 0,
            added_at,
            updated_at,
            read_at,
            content: None,
            image_url: row.image_url,
            document_id: row.document_id,
            synced_to_device: row.synced_to_device != 0,
            last_sync,
        },
    )
}

/// Whether all times of an article are in years of four digits.
pub open spec fn times_usual(a: crate::readlater::ArticleView) -> bool {
    &&& a.added_at.four_digit_year()
    &&& a.updated_at.four_digit_year()
    &&& a.read_at matches Some(t) ==> t.four_digit_year()
    &&& a.last_sync matches Some(t) ==> t.four_digit_year()
}

/// No two providers, and no two statuses, have one name, and all names are words.
proof fn lemma_names_differ()
    ensures
        forall|p: ReadLaterProvider| is_word(#[trigger] crate::readlater::provider_name(p)),
        forall|s: ReadStatus| is_word(#[trigger] crate::readlater::status_name(s)),
        forall|p: ReadLaterProvider, q: ReadLaterProvider| #[trigger]
            crate::readlater::provider_name(p) == #[trigger] crate::readlater::provider_name(q)
                ==> p == q,
        forall|s: ReadStatus, t: ReadStatus| #[trigger]
            crate::readlater::status_name(s) == #[trigger] crate::readlater::status_name(t) ==> s
                == t,
{
    reveal_strlit("pocket");
    reveal_strlit("instapaper");
    reveal_strlit("wallabag");
    reveal_strlit("omnivore");
    assert("pocket"@[0] == 'p');
    assert("instapaper"@[0] == 'i');
    assert("wallabag"@[0] == 'w');
    assert("omnivore"@[0] == 'o');
    reveal_strlit("unread");
    reveal_strlit("inprogress");
    reveal_strlit("read");
    reveal_strlit("archived");
    assert("unread"@.len() == 6);
    assert("inprogress"@.len() == 10);
    assert("read"@.len() == 4);
    assert("archived"@.len() == 8);
}

/// What is written of an article is read back as the same article, but for its content, which is
/// not written.
pub proof fn law_articles_persist(
    a: crate::readlater::ArticleView,
    row: ArticleRow,
    r: Result<Article, BadColumn>,
    at: Timestamp,
)
    requires
        times_usual(a),
        writes(row, a),
        reads(r, row, at),
    ensures
        r matches Ok(b) && b@ == (crate::readlater::ArticleView { content: None, ..a }),
{
    lemma_names_differ();
    assert(row.provider@ == crate::readlater::provider_name(a.provider));
    assert(row.status@ == crate::readlater::status_name(a.status));
    if let Ok(b) = r {
        assert(b@ =~= crate::readlater::ArticleView { content: None, ..a });
    }
}

/// The state of an OAuth flow that a row tells; `at` stands for a time that cannot be read.
pub fn oauth_state_of(
    provider: &str,
    request_token: Option<String>,
    redirect_uri: String,
    created_at: &str,
    at: Timestamp,
) -> (r: Result<OAuthState, BadColumn>)
    ensures
        match r {
            Ok(s) => unquoted(provider@) == Some(crate::readlater::provider_name(s.provider))
                && s.request_token == request_token && s.redirect_uri == redirect_uri && s.created_at
                == crate::readlater::wallabag::time_told(created_at@, at),
            Err(e) => e == BadColumn::Provider && forall|p: ReadLaterProvider|
                unquoted(provider@) != Some(#[trigger] crate::readlater::provider_name(p)),
        },
{
    match provider_in(provider) {
        Some(provider) => Ok(
            OAuthState {
                provider,
                request_token,
                redirect_uri,
                created_at: time_or_now(created_at, at),
            },
        ),
        None => Err(BadColumn::Provider),
    }
}

/// An account's row: the credentials are in a column of their own.
#[derive(Debug)]
pub struct AccountRow {
    pub id: String,
    pub name: String,
    pub provider: String,
    pub enabled: i32,
    pub config: ProviderConfig,
    pub secrets: Option<ProviderSecrets>,
    pub sync_settings: SyncSettings,
    pub last_sync: Option<String>,
    pub created_at: String,
}

/// What is written of an account.
pub fn account_row(account: &ProviderAccount, sync_settings: SyncSettings) -> (r: AccountRow)
    requires
        account.created_at.valid(),
        account.last_sync matches Some(t) ==> t.valid(),
    ensures
        r.id@ == account.id@,
        r.name@ == account.name@,
        r.provider@ == crate::readlater::provider_name(account.provider),
        r.enabled == (if account.enabled {
            1i32
        } else {
            0i32
        }),
        r.config == crate::readlater::without_secrets(account.config),
        r.secrets == Some(crate::readlater::secrets_of(account.config)),
        r.sync_settings == sync_settings,
        writes_option(r.last_sync, account.last_sync),
        writes_time(r.created_at@, account.created_at),
{
    AccountRow {
        id: account.id.clone(),
        name: account.name.clone(),
        provider: account.provider.name().to_owned(),
        enabled: if account.enabled {
            1
        } else {
            0
        },
        config: account.config.public_part(),
        secrets: Some(account.config.secrets()),
        sync_settings,
        last_sync: time_text(account.last_sync),
        created_at: to_rfc3339(account.created_at),
    }
}

/// Whether `r` is what is read of an account's row.
pub open spec fn reads_account(
    r: Result<ProviderAccount, BadColumn>,
    row: AccountRow,
    at: Timestamp,
) -> bool {
    match r {
        Ok(a) => {
            &&& a.id@ == row.id@
            &&& a.name@ == row.name@
            &&& unquoted(row.provider@) == Some(crate::readlater::provider_name(a.provider))
            &&& a.enabled == (row.enabled != 0)
            &&& a.config == (match row.secrets {
                Some(s) => crate::readlater::with_secrets(row.config, s),
                None => row.config,
            })
            &&& a.sync_settings == row.sync_settings
            &&& a.last_sync == (match row.last_sync {
                Some(s) => crate::clock::told(s@),
                None => None,
            })
            &&& a.created_at == crate::readlater::wallabag::time_told(row.created_at@, at)
        },
        Err(e) => e == BadColumn::Provider && forall|p: ReadLaterProvider|
            unquoted(row.provider@) != Some(#[trigger] crate::readlater::provider_name(p)),
    }
}

/// The account that a row tells; `at` stands for a creation time that cannot be read.
pub fn account_of(row: AccountRow, at: Timestamp) -> (r: Result<ProviderAccount, BadColumn>)
    ensures
        reads_account(r, row, at),
{
    let provider = match provider_in(row.provider.as_str()) {
        Some(p) => p,
        None => {
            return Err(BadColumn::Provider);
        },
    };
    let mut config = row.config;
    if let Some(s) = row.secrets {
        config.apply_secrets(s);
    }
    let last_sync = last_sync_of(&row.last_sync);
    let created_at = time_or_now(row.created_at.as_str(), at);
    Ok(
        ProviderAccount {
            id: row.id,
            name: row.name,
            provider,
            enabled: row.enabled != 0,
            config,
            sync_settings: row.sync_settings,
            last_sync,
            created_at,
        },
    )
}

/// What is written of an account is read back as the same account, credentials and all.
pub proof fn law_accounts_persist(
    a: ProviderAccount,
    row: AccountRow,
    r: Result<ProviderAccount, BadColumn>,
    at: Timestamp,
)
    requires
        a.created_at.four_digit_year(),
        a.last_sync matches Some(t) ==> t.four_digit_year(),
        row.id@ == a.id@,
        row.name@ == a.name@,
        row.provider@ == crate::readlater::provider_name(a.provider),
        row.enabled == (if a.enabled {
            1i32
        } else {
            0i32
        }),
        row.config == crate::readlater::without_secrets(a.config),
        row.secrets == Some(crate::readlater::secrets_of(a.config)),
        row.sync_settings == a.sync_settings,
        writes_option(row.last_sync, a.last_sync),
        writes_time(row.created_at@, a.created_at),
        reads_account(r, row, at),
    ensures
        r matches Ok(b) && b.id@ == a.id@ && b.name@ == a.name@ && b.provider == a.provider
            && b.enabled == a.enabled && b.config == a.config && b.sync_settings == a.sync_settings
            && b.last_sync == a.last_sync && b.created_at == a.created_at,
{
    lemma_names_differ();
    crate::readlater::law_credentials_persist_apart(a.config);
    assert(row.provider@ == crate::readlater::provider_name(a.provider));
}

/// The time that a row tells of an account's last sync: none where it cannot be read.
pub fn last_sync_of(text: &Option<String>) -> (r: Option<Timestamp>)
    ensures
        r == (match text {
            Some(s) => crate::clock::told(s@),
            None => None,
        }),
{
    match text {
        Some(s) => crate::clock::parse_rfc3339(s.as_str()),
        None => None,
    }
}

/// A row holds each part of an article in the column of its name.
pub proof fn law_a_row_holds_the_article(row: ArticleRow, a: crate::readlater::ArticleView)
    requires
        writes(row, a),
    ensures
        row.id@ == a.id && row.provider_id@ == a.provider_id,
        row.url@ == a.url && row.title@ == a.title,
        row.provider@ == crate::readlater::provider_name(a.provider),
        row.status@ == crate::readlater::status_name(a.status),
        row.favorite != 0 <==> a.favorite,
        row.synced_to_device != 0 <==> a.synced_to_device,
        row.word_count == a.word_count && row.reading_time_minutes == a.reading_time_minutes,
        row.excerpt matches Some(e) ==> a.excerpt == Some(e@),
        row.author matches Some(e) ==> a.author == Some(e@),
        row.image_url matches Some(e) ==> a.image_url == Some(e@),
        row.document_id matches Some(e) ==> a.document_id == Some(e@),
        row.added_at@ == crate::clock::rfc3339(a.added_at.seconds, a.added_at.nanos),
        row.updated_at@ == crate::clock::rfc3339(a.updated_at.seconds, a.updated_at.nanos),
        row.read_at is Some <==> a.read_at is Some,
        row.last_sync is Some <==> a.last_sync is Some,
        row.tags matches Some(t) && t@ == strings_json(a.tags),
{
}

/// An article is read from the columns of its parts.
pub proof fn law_an_article_is_read_from_its_columns(
    row: ArticleRow,
    p: ReadLaterProvider,
    s: ReadStatus,
    at: Timestamp,
)
    ensures
        told_article(row, p, s, at).id == row.id@,
        told_article(row, p, s, at).provider == p,
        told_article(row, p, s, at).provider_id == row.provider_id@,
        told_article(row, p, s, at).url == row.url@,
        told_article(row, p, s, at).title == row.title@,
        told_article(row, p, s, at).status == s,
        told_article(row, p, s, at).favorite <==> row.favorite != 0,
        told_article(row, p, s, at).synced_to_device <==> row.synced_to_device != 0,
        told_article(row, p, s, at).word_count == row.word_count,
        told_article(row, p, s, at).reading_time_minutes == row.reading_time_minutes,
        row.excerpt matches Some(e) ==> told_article(row, p, s, at).excerpt == Some(e@),
        row.author matches Some(e) ==> told_article(row, p, s, at).author == Some(e@),
        row.document_id matches Some(e) ==> told_article(row, p, s, at).document_id == Some(e@),
        match crate::clock::rfc3339_value(row.added_at@) {
            Some((seconds, nanos)) => told_article(row, p, s, at).added_at == (Timestamp {
                seconds,
                nanos,
            }),
            None => told_article(row, p, s, at).added_at == at,
        },
        match crate::clock::rfc3339_value(row.updated_at@) {
            Some((seconds, nanos)) => told_article(row, p, s, at).updated_at == (Timestamp {
                seconds,
                nanos,
            }),
            None => told_article(row, p, s, at).updated_at == at,
        },
        row.read_at is None ==> told_article(row, p, s, at).read_at is None,
        row.last_sync is None ==> told_article(row, p, s, at).last_sync is None,
        row.tags is None ==> told_article(row, p, s, at).tags.len() == 0,
        row.tags matches Some(t) ==> match json_strings(t@) {
            Some(v) => told_article(row, p, s, at).tags == v,
            None => told_article(row, p, s, at).tags.len() == 0,
        },
{
}

/// An account is read from the columns of its parts, with the credentials that are stored apart.
pub proof fn law_an_account_is_read_from_its_columns(
    r: Result<ProviderAccount, BadColumn>,
    row: AccountRow,
    at: Timestamp,
)
    requires
        reads_account(r, row, at),
    ensures
        r matches Ok(a) ==> {
            &&& a.id@ == row.id@ && a.name@ == row.name@
            &&& a.enabled <==> row.enabled != 0
            &&& a.sync_settings == row.sync_settings
            &&& row.secrets is None ==> a.config == row.config
            &&& row.last_sync is None ==> a.last_sync is None
            &&& crate::clock::rfc3339_value(row.created_at@) matches Some((seconds, nanos))
                ==> a.created_at == (Timestamp { seconds, nanos })
        },
        r matches Err(e) ==> e == BadColumn::Provider,
{
}

} // verus!

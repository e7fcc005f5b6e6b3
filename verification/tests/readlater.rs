//! Read-later providers, articles and accounts.

use remarkable_server::clock::{Timestamp, MAX_SECONDS, MIN_SECONDS};
use remarkable_server::integrations::conflict::conflict_name_at;
use remarkable_server::readlater::convert::{escape_html, safe_href, ArticleConverter};
use remarkable_server::readlater::instapaper::{xauth_response, InstapaperProvider};
use remarkable_server::readlater::manager::{select_articles_for_sync, ReadLaterManager};
use remarkable_server::readlater::oauth1::{
    oauth1_base_string, oauth1_signature, oauth_percent_encode, parse_form_urlencoded,
};
use remarkable_server::readlater::pocket::PocketItem;
use remarkable_server::readlater::rows::{
    account_of, account_row, article_of, article_row, oauth_state_of, AccountRow, BadColumn,
};
use remarkable_server::readlater::wallabag::{
    after_reply, first_grant, grant_form, next_grant, token_stale, wallabag_token_needs_refresh, Grant,
    WallabagEntry, WallabagProvider, WallabagToken,
};
use remarkable_server::readlater::{
    available, instapaper, pocket, wallabag, Article, ArticleContent, ArticleFormat, ArticleQuery,
    ArticleSortBy, OAuthCallback, ProviderAccount, ProviderConfig, ReadLaterError,
    ReadLaterProvider, ReadStatus, SortOrder, SyncSettings, TagFilter,
};

use remarkable_server::table::Table;

fn at(seconds: i64) -> Timestamp {
    Timestamp { seconds, nanos: 0 }
}

fn article(id: &str, provider_id: &str, added_secs: i64) -> Article {
    let t = at(added_secs);
    Article {
        id: id.into(),
        provider: ReadLaterProvider::Pocket,
        provider_id: provider_id.into(),
        url: "https://example.com/a".into(),
        title: "T".into(),
        excerpt: None,
        author: None,
        word_count: None,
        reading_time_minutes: None,
        tags: Vec::new(),
        status: ReadStatus::Unread,
        favorite: false,
        added_at: t,
        updated_at: t,
        read_at: None,
        content: None,
        image_url: None,
        document_id: None,
        synced_to_device: false,
        last_sync: None,
    }
}

fn test_account(id: &str, provider: ReadLaterProvider, config: ProviderConfig) -> ProviderAccount {
    ProviderAccount {
        id: id.into(),
        name: id.into(),
        provider,
        enabled: true,
        config,
        sync_settings: SyncSettings::default(),
        last_sync: None,
        created_at: at(1_700_000_000),
    }
}

fn wallabag_config(
    instance_url: &str,
    access_token: Option<&str>,
    refresh_token: Option<&str>,
    token_expires_at: Option<Timestamp>,
) -> ProviderConfig {
    ProviderConfig::Wallabag {
        instance_url: instance_url.into(),
        client_id: "cid".into(),
        client_secret: Some("csecret".into()),
        access_token: access_token.map(Into::into),
        refresh_token: refresh_token.map(Into::into),
        token_expires_at,
        username: None,
        password: None,
    }
}

#[test]
fn oauth_percent_encoding_is_rfc3986() {
    assert_eq!(oauth_percent_encode("abcABC123-._~"), "abcABC123-._~");
    assert_eq!(oauth_percent_encode("a b+c/=&%"), "a%20b%2Bc%2F%3D%26%25");
    assert_eq!(oauth_percent_encode("\u{2603}"), "%E2%98%83");
}

#[test]
fn oauth_base_string_matches_rfc5849_3_4_1_1() {
    // RFC 5849 section 3.4.1.1 example (decoded query, body and oauth params).
    let params = vec![
        ("b5", "=%3D"),
        ("a3", "a"),
        ("c@", ""),
        ("a2", "r b"),
        ("oauth_consumer_key", "9djdj82h48djs9d2"),
        ("oauth_token", "kkk9d7dh3k39sjv7"),
        ("oauth_signature_method", "HMAC-SHA1"),
        ("oauth_timestamp", "137131201"),
        ("oauth_nonce", "7d8f3e4a"),
        ("c2", ""),
        ("a3", "2 q"),
    ];
    assert_eq!(
        oauth1_base_string("POST", "http://example.com/request", &params),
        "POST&http%3A%2F%2Fexample.com%2Frequest&a2%3Dr%2520b%26a3%3D2%2520q%26a3%3Da%26b5%3D%253D%25253D%26c%2540%3D%26c2%3D%26oauth_consumer_key%3D9djdj82h48djs9d2%26oauth_nonce%3D7d8f3e4a%26oauth_signature_method%3DHMAC-SHA1%26oauth_timestamp%3D137131201%26oauth_token%3Dkkk9d7dh3k39sjv7"
    );
    // The order in which parameters come does not matter.
    let mut turned = params.clone();
    turned.reverse();
    assert_eq!(
        oauth1_base_string("POST", "http://example.com/request", &turned),
        oauth1_base_string("POST", "http://example.com/request", &params)
    );
}

#[test]
fn oauth_hmac_sha1_signature_matches_known_vector() {
    // OAuth Core 1.0 Appendix A.5 (the photos.example.net example, reused by RFC 5849).
    let params = vec![
        ("file", "vacation.jpg"),
        ("size", "original"),
        ("oauth_consumer_key", "dpf43f3p2l4k3l03"),
        ("oauth_token", "nnch734d00sl2jdk"),
        ("oauth_signature_method", "HMAC-SHA1"),
        ("oauth_timestamp", "1191242096"),
        ("oauth_nonce", "kllo9940pd9333jh"),
        ("oauth_version", "1.0"),
    ];
    assert_eq!(
        oauth1_signature(
            "GET",
            "http://photos.example.net/photos",
            &params,
            "kd94hf93k423kf44",
            Some("pfkkdhi9sl3r4s00")
        ),
        "tR3+Ty81lMeYAr/Fid0kMTYa/WM="
    );
    // RFC 5849 section 1.2 authenticated request example.
    let params = vec![
        ("file", "vacation.jpg"),
        ("size", "original"),
        ("oauth_consumer_key", "dpf43f3p2l4k3l03"),
        ("oauth_token", "nnch734d00sl2jdk"),
        ("oauth_signature_method", "HMAC-SHA1"),
        ("oauth_timestamp", "137131202"),
        ("oauth_nonce", "chapoH"),
    ];
    assert_eq!(
        oauth1_signature(
            "GET",
            "http://photos.example.net/photos",
            &params,
            "kd94hf93k423kf44",
            Some("pfkkdhi9sl3r4s00")
        ),
        "MdpQcU8iPSUjWoN/UDMsK2sui9I="
    );
}

#[test]
fn wallabag_refreshes_only_when_needed() {
    let now = at(1_700_000_000);
    let hour = at(now.seconds + 3600);
    assert!(wallabag_token_needs_refresh(None, None, true, now));
    assert!(wallabag_token_needs_refresh(None, Some(hour), true, now));
    // Unknown expiry: refresh once if we can (the refresh records an expiry), else use as-is.
    assert!(wallabag_token_needs_refresh(Some("t"), None, true, now));
    assert!(!wallabag_token_needs_refresh(Some("t"), None, false, now));
    assert!(!wallabag_token_needs_refresh(
        Some("t"),
        Some(hour),
        true,
        now
    ));
    assert!(wallabag_token_needs_refresh(
        Some("t"),
        Some(at(now.seconds + 120)),
        true,
        now
    ));
    assert!(wallabag_token_needs_refresh(
        Some("t"),
        Some(at(now.seconds - 60)),
        true,
        now
    ));
}

#[test]
fn escape_html_and_safe_href() {
    assert_eq!(
        escape_html(r#"<a href="x">'&'</a>"#),
        "&lt;a href=&quot;x&quot;&gt;&#39;&amp;&#39;&lt;/a&gt;"
    );
    assert_eq!(
        safe_href("https://ex.com/?a=1&b=2"),
        "https://ex.com/?a=1&b=2"
    );
    assert_eq!(safe_href("javascript:alert(1)"), "#");
    assert_eq!(safe_href(" JavaScript:alert(1)"), "#");
}

fn hostile_article() -> Article {
    let mut a = article("id-1", "p1", 0);
    a.title = "</title><script>alert(1)</script>".into();
    a.author = Some("A & B <x>".into());
    a.url = "https://ex.com/?q=\"><script>".into();
    a
}

#[test]
fn html_export_escapes_metadata() {
    let content = ArticleContent {
        html: "<p>body</p>".into(),
        images: Vec::new(),
        styles: None,
    };
    let rendered =
        ArticleConverter::render(&hostile_article(), &content, ArticleFormat::Html, None).unwrap();
    assert_eq!(rendered.ext, "html");
    let html = String::from_utf8(rendered.bytes).unwrap();
    assert!(!html.contains("<script>"));
    assert!(html.contains("<title>&lt;/title&gt;&lt;script&gt;alert(1)&lt;/script&gt;</title>"));
    assert!(html.contains("By A &amp; B &lt;x&gt;"));
    assert!(html.contains(r#"href="https://ex.com/?q=&quot;&gt;&lt;script&gt;""#));
    assert!(html.contains("<p>body</p>"));
}

#[test]
fn epub_xhtml_escapes_metadata() {
    let content = ArticleContent {
        html: "<p>body</p>".into(),
        images: Vec::new(),
        styles: None,
    };
    let xhtml = ArticleConverter::epub_content_xhtml(&hostile_article(), &content);
    assert!(!xhtml.contains("<script>"));
    assert!(xhtml.contains(r#"href="https://ex.com/?q=&quot;&gt;&lt;script&gt;""#));
    assert!(xhtml.contains("max-width: 100%;"));
}

/// EPUBs are built in memory (no `zip` binary): a ZIP whose first entry is the stored `mimetype`, as
/// EPUB readers require, with the article as `OEBPS/content.xhtml`.
#[test]
fn epub_is_rendered_in_memory() {
    let content = ArticleContent {
        html: "<p>body text</p>".into(),
        images: Vec::new(),
        styles: None,
    };
    let rendered =
        ArticleConverter::render(&hostile_article(), &content, ArticleFormat::Epub, None).unwrap();
    assert_eq!(rendered.ext, "epub");
    let b = &rendered.bytes;
    assert_eq!(&b[..4], b"PK\x03\x04");
    assert_eq!(&b[30..38], b"mimetype");
    assert_eq!(&b[38..58], b"application/epub+zip");
    let find = |needle: &[u8]| b.windows(needle.len()).any(|w| w == needle);
    assert!(find(b"OEBPS/content.xhtml"));
    assert!(find(b"META-INF/container.xml"));
}

#[test]
fn pdf_needs_a_printer() {
    let content = ArticleContent {
        html: String::new(),
        images: Vec::new(),
        styles: None,
    };
    let a = article("id-1", "p1", 0);
    let err = ArticleConverter::render(&a, &content, ArticleFormat::Pdf, None).unwrap_err();
    assert_eq!(
        err.message(),
        "Conversion error: No PDF converter available (install weasyprint or wkhtmltopdf)"
    );
    let ok = ArticleConverter::render(&a, &content, ArticleFormat::Pdf, Some(vec![1, 2])).unwrap();
    assert_eq!(ok.ext, "pdf");
    assert_eq!(ok.bytes, [1, 2]);
    let err = ArticleConverter::epub_outcome(Err("broken".into())).unwrap_err();
    assert_eq!(err.message(), "Conversion error: EPUB: broken");
}

#[test]
fn save_article_upserts_by_provider_id() {
    let mut mgr = ReadLaterManager::new();
    let mut first = article("id-1", "p1", 0);
    first.synced_to_device = true;
    first.document_id = Some("doc".into());
    mgr.save_article(&first);

    // A provider re-fetch mints a fresh uuid for the same provider item.
    let mut refetched = article("id-2", "p1", 0);
    refetched.title = "Updated".into();
    let stored = mgr.upsert_article(&refetched);
    assert_eq!(stored.id, "id-1");
    assert_eq!(mgr.articles.entries.len(), 1);
    let a = mgr.get_article("id-1").unwrap();
    assert_eq!(a.title, "Updated");
    assert!(a.synced_to_device);
    assert_eq!(a.document_id.as_deref(), Some("doc"));
    assert!(mgr.get_article("id-2").is_none());

    // Reading back what is written yields the same article.
    let row = article_row(&a);
    assert_eq!(row.provider, "pocket");
    assert_eq!(row.tags.as_deref(), Some("[]"));
    let b = article_of(row, at(5)).unwrap();
    assert_eq!(b.id, "id-1");
    assert_eq!(b.title, "Updated");
    assert_eq!(b.document_id.as_deref(), Some("doc"));
    assert_eq!(b.added_at, at(0));
    assert!(b.synced_to_device);
}

#[test]
fn rows_that_say_too_little_are_refused() {
    let mut row = article_row(&article("a", "p", 0));
    row.provider = "delicious".into();
    assert_eq!(article_of(row, at(0)).unwrap_err(), BadColumn::Provider);
    let mut row = article_row(&article("a", "p", 0));
    row.status = "lost".into();
    assert_eq!(article_of(row, at(0)).unwrap_err(), BadColumn::Status);
    let mut row = article_row(&article("a", "p", 0));
    row.tags = Some(r#"["x","y z"]"#.into());
    row.added_at = "yesterday".into();
    let a = article_of(row, at(77)).unwrap();
    assert_eq!(a.tags, ["x", "y z"]);
    assert_eq!(a.added_at, at(77));
    let s = oauth_state_of(
        "pocket",
        Some("rt".into()),
        "http://cb".into(),
        "2025-01-01T00:00:00+00:00",
        at(0),
    )
    .unwrap();
    assert_eq!(s.provider, ReadLaterProvider::Pocket);
    assert_eq!(s.created_at, at(1_735_689_600));
    for bad in ["?", "", "Pocket", "pocket\",\"pocket", "pocket\" ", "pock\\et"] {
        assert_eq!(
            oauth_state_of(bad, None, String::new(), "", at(0)).unwrap_err(),
            BadColumn::Provider,
            "{bad}"
        );
    }
    // Columns stand between the quotes of a JSON string.
    let s = oauth_state_of(r"p\u006fcket", None, String::new(), "", at(0)).unwrap();
    assert_eq!(s.provider, ReadLaterProvider::Pocket);
    let mut row = article_row(&article("a", "p", 0));
    row.status = r"arch\u0069ved".into();
    assert_eq!(article_of(row, at(0)).unwrap().status, ReadStatus::Archived);
}

#[test]
fn times_are_told_from_the_first_second_to_the_last() {
    let item = |added: &str| PocketItem {
        item_id: "1".into(),
        given_url: "u".into(),
        given_title: None,
        resolved_title: None,
        excerpt: None,
        word_count: None,
        time_added: added.into(),
        time_updated: added.into(),
        time_read: None,
        status: "0".into(),
        favorite: "0".into(),
        tags: vec![],
        author: None,
        image: None,
    };
    let told = |added: &str| item(added).to_article("id".into(), at(5)).added_at;
    for seconds in [MIN_SECONDS, MAX_SECONDS] {
        let t = told(&seconds.to_string());
        assert_eq!(t, at(seconds));
        // Such a time can be written, too.
        let mut a = article("a", "p", 0);
        a.added_at = t;
        assert!(!article_row(&a).added_at.is_empty());
        assert!(!conflict_name_at("f.txt", t).is_empty());
    }
    assert_eq!(told(&(MIN_SECONDS - 1).to_string()), at(5));
    assert_eq!(told(&(MAX_SECONDS + 1).to_string()), at(5));
}

#[test]
fn select_articles_applies_max_articles_newest_first() {
    let articles: Vec<Article> = (0..10)
        .map(|i| article(&format!("id{i}"), &format!("p{i}"), i * 100))
        .collect();
    let mut settings = SyncSettings {
        max_articles: 3,
        ..SyncSettings::default()
    };
    let picked = select_articles_for_sync(&articles, &settings);
    assert_eq!(
        picked
            .iter()
            .map(|a| a.provider_id.as_str())
            .collect::<Vec<_>>(),
        ["p9", "p8", "p7"]
    );
    settings.max_articles = 0;
    assert_eq!(select_articles_for_sync(&articles, &settings).len(), 10);
    // Filters apply before the cap.
    settings.max_articles = 2;
    settings.include_favorites_only = true;
    let mut favs = articles;
    favs[1].favorite = true;
    favs[2].favorite = true;
    favs[3].favorite = true;
    let picked = select_articles_for_sync(&favs, &settings);
    assert_eq!(
        picked
            .iter()
            .map(|a| a.provider_id.as_str())
            .collect::<Vec<_>>(),
        ["p3", "p2"]
    );
}

#[test]
fn select_articles_tag_filters_require_include_and_honor_exclude() {
    let tagged = |p: &str, tags: &[&str]| {
        let mut a = article(p, p, 0);
        a.tags = tags.iter().map(|t| t.to_string()).collect();
        a
    };
    let articles = vec![
        tagged("none", &[]),
        tagged("inc", &["Rust"]),
        tagged("both", &["rust", "skip"]),
        tagged("exc", &["skip"]),
        tagged("other", &["go"]),
    ];
    let filter = |tag: &str, included: bool| TagFilter {
        tag: tag.into(),
        included,
    };
    let ids = |settings: &SyncSettings| {
        let mut v: Vec<String> = select_articles_for_sync(&articles, settings)
            .into_iter()
            .map(|a| a.provider_id)
            .collect();
        v.sort();
        v
    };
    let mut settings = SyncSettings {
        max_articles: 0,
        tag_filters: vec![filter("rust", true), filter("skip", false)],
        ..SyncSettings::default()
    };
    assert_eq!(ids(&settings), ["inc"]);
    settings.tag_filters = vec![filter("skip", false)];
    assert_eq!(ids(&settings), ["inc", "none", "other"]);
    settings.tag_filters = vec![filter("rust", true), filter("go", true)];
    assert_eq!(ids(&settings), ["both", "inc", "other"]);
}

#[test]
fn credentials_persist_across_restart_but_not_in_config_json() {
    let with_login = |mut c: ProviderConfig| {
        if let ProviderConfig::Wallabag {
            username, password, ..
        } = &mut c
        {
            *username = Some("alice".into());
            *password = Some("PW".into());
        }
        c
    };
    let mut mgr = ReadLaterManager::new();
    let wb = with_login(wallabag_config(
        "https://wb.example",
        Some("AT"),
        Some("RT"),
        None,
    ));
    mgr.add_account(test_account("wb", ReadLaterProvider::Wallabag, wb))
        .unwrap();
    let ip = ProviderConfig::Instapaper {
        oauth_token: Some("OT".into()),
        oauth_token_secret: Some("OTS".into()),
        username: Some("bob".into()),
    };
    mgr.add_account(test_account("ip", ReadLaterProvider::Instapaper, ip))
        .unwrap();

    // The config that stands beside the credentials carries none.
    let rows: Vec<AccountRow> = mgr
        .accounts
        .entries
        .iter()
        .map(|(_, a)| account_row(a, a.sync_settings.clone()))
        .collect();
    for secret in ["AT", "RT", "csecret", "PW", "OT", "OTS"] {
        for row in &rows {
            let text = format!("{:?}", row.config);
            assert!(!text.contains(&format!("\"{secret}\"")), "{text}");
        }
    }

    // A refreshed token is stored by update_account_config.
    let refreshed = with_login(wallabag_config(
        "https://wb.example",
        Some("AT2"),
        Some("RT2"),
        None,
    ));
    mgr.update_account_config("wb", &refreshed).unwrap();

    // What is written is read back.
    let again = |id: &str| {
        let a = mgr.get_account(id).unwrap();
        account_of(account_row(a, a.sync_settings.clone()), at(0)).unwrap()
    };
    let ProviderConfig::Wallabag {
        client_secret,
        access_token,
        refresh_token,
        username,
        password,
        ..
    } = again("wb").config
    else {
        panic!("wrong variant")
    };
    assert_eq!(client_secret.as_deref(), Some("csecret"));
    assert_eq!(access_token.as_deref(), Some("AT2"));
    assert_eq!(refresh_token.as_deref(), Some("RT2"));
    assert_eq!(username.as_deref(), Some("alice"));
    assert_eq!(password.as_deref(), Some("PW"));
    let ProviderConfig::Instapaper {
        oauth_token,
        oauth_token_secret,
        ..
    } = again("ip").config
    else {
        panic!("wrong variant")
    };
    assert_eq!(oauth_token.as_deref(), Some("OT"));
    assert_eq!(oauth_token_secret.as_deref(), Some("OTS"));

    let err = mgr.update_account_config("nobody", &refreshed).unwrap_err();
    assert_eq!(err.message(), "Provider not found: nobody");
}

/// Rows from before the `secrets` column (and of Omnivore) still load.
#[test]
fn migrates_legacy_db_and_loads_omnivore_rows() {
    let row = |id: &str, provider: &str, config: ProviderConfig| AccountRow {
        id: id.into(),
        name: id.into(),
        provider: provider.into(),
        enabled: 1,
        config,
        secrets: None,
        sync_settings: SyncSettings::default(),
        last_sync: None,
        created_at: "2025-01-01T00:00:00+00:00".into(),
    };
    let mut mgr = ReadLaterManager::new();
    let om = account_of(row("om", "omnivore", ProviderConfig::Omnivore {}), at(0)).unwrap();
    assert_eq!(om.provider, ReadLaterProvider::Omnivore);
    assert!(!om.config.is_authenticated());
    mgr.update_account(om);
    // Very old rows could still carry a token inside the config.
    let pocket = ProviderConfig::Pocket {
        consumer_key: "ck".into(),
        access_token: Some("legacy".into()),
        username: None,
    };
    let pk = account_of(row("pk", "pocket", pocket), at(0)).unwrap();
    let ProviderConfig::Pocket { access_token, .. } = &pk.config else {
        panic!("wrong variant")
    };
    assert_eq!(access_token.as_deref(), Some("legacy"));

    let err = available(ReadLaterProvider::Omnivore).err().unwrap();
    assert!(matches!(err, ReadLaterError::Discontinued(_)));
    // New Omnivore accounts are rejected; the old one can still be deleted.
    let err = mgr
        .add_account(test_account(
            "om2",
            ReadLaterProvider::Omnivore,
            ProviderConfig::Omnivore {},
        ))
        .unwrap_err();
    assert!(matches!(err, ReadLaterError::Discontinued(_)));
    mgr.delete_account("om");
    assert!(mgr.get_account("om").is_none());

    // The legacy token is written apart from then on.
    let row = account_row(&pk, SyncSettings::default());
    assert_eq!(row.secrets.unwrap().access_token.as_deref(), Some("legacy"));
}

/// No refresh token: the password grant is used, and a retry that still gets 401 is not retried
/// again.
#[test]
fn wallabag_401_uses_password_grant_and_retries_only_once() {
    let now = at(1_700_000_000);
    let mut provider = WallabagProvider::new();
    let mut config = wallabag_config("https://wb.example", Some("revoked"), None, None);
    // Without refresh credentials a token with no expiry is used as-is; the 401 is final.
    assert_eq!(token_stale(&config, now).unwrap(), false);
    assert!(!after_reply(401, false, &config));
    assert!(provider.take_refreshed_config().is_none());

    if let ProviderConfig::Wallabag {
        username,
        password,
        token_expires_at,
        ..
    } = &mut config
    {
        *username = Some("alice".into());
        *password = Some("pw".into());
        *token_expires_at = Some(at(now.seconds + 3600));
    }
    assert_eq!(token_stale(&config, now).unwrap(), false);
    assert!(after_reply(401, false, &config));
    assert!(!after_reply(401, true, &config));
    assert!(!after_reply(200, false, &config));
    assert_eq!(first_grant(&config).unwrap(), Grant::Password);
    let form = grant_form(&config, Grant::Password);
    assert!(form.contains(&("grant_type", "password")));
    assert!(form.contains(&("username", "alice")));
    assert!(form.contains(&("password", "pw")));
    let token = WallabagToken {
        access_token: "fresh".into(),
        refresh_token: Some("rotated-refresh".into()),
        expires_in: Some(3600),
    };
    let fresh = provider.refreshed_config(&config, token, now);
    assert_eq!(token_stale(&fresh, now).unwrap(), false);
    let Some(ProviderConfig::Wallabag {
        access_token,
        refresh_token,
        token_expires_at,
        ..
    }) = provider.take_refreshed_config()
    else {
        panic!("expected a refreshed config")
    };
    assert_eq!(access_token.as_deref(), Some("fresh"));
    assert_eq!(refresh_token.as_deref(), Some("rotated-refresh"));
    assert_eq!(token_expires_at, Some(at(now.seconds + 3600)));
    assert!(provider.take_refreshed_config().is_none());

    // With a refresh token that is tried first; the password comes after it, or the error.
    assert_eq!(first_grant(&fresh).unwrap(), Grant::RefreshToken);
    let failed = || ReadLaterError::OAuth("401".into());
    assert_eq!(
        next_grant(&fresh, Grant::RefreshToken, failed()).unwrap(),
        Grant::Password
    );
    let err = next_grant(&fresh, Grant::Password, failed()).unwrap_err();
    assert!(err.message().contains("401"));
    let bare = wallabag_config("https://wb.example", Some("revoked"), Some("r"), None);
    assert!(next_grant(&bare, Grant::RefreshToken, failed()).is_err());
}

#[test]
fn parse_form_urlencoded_decodes() {
    assert_eq!(
        parse_form_urlencoded("oauth_token=a%2Bb&oauth_token_secret=c+d&flag\n"),
        vec![
            ("oauth_token".to_string(), "a+b".to_string()),
            ("oauth_token_secret".to_string(), "c d".to_string()),
            ("flag".to_string(), String::new()),
        ]
    );
}

#[test]
fn instapaper_xauth_signs_request_and_parses_tokens() {
    let base = "http://127.0.0.1:1";
    let provider = InstapaperProvider::new("ckey".into(), "csecret".into()).with_api_base(base);
    let callback = OAuthCallback {
        code: None,
        oauth_token: None,
        oauth_verifier: None,
        state: None,
        username: Some("u@example.com".into()),
        password: Some("p&w =".into()),
    };
    let body = provider.xauth_request(&callback).unwrap();
    assert_eq!(
        body,
        [
            ("x_auth_username", "u@example.com"),
            ("x_auth_password", "p&w ="),
            ("x_auth_mode", "client_auth"),
        ]
    );
    let config = xauth_response(
        "oauth_token=tok%2B1&oauth_token_secret=sec+ret",
        "u@example.com",
    )
    .unwrap();
    let ProviderConfig::Instapaper {
        oauth_token,
        oauth_token_secret,
        username,
    } = &config
    else {
        panic!("wrong variant")
    };
    assert_eq!(oauth_token.as_deref(), Some("tok+1"));
    assert_eq!(oauth_token_secret.as_deref(), Some("sec ret"));
    assert_eq!(username.as_deref(), Some("u@example.com"));
    assert!(config.is_authenticated());
    assert!(xauth_response("oauth_token=t", "u").is_err());

    // A valid HMAC-SHA1 signature over the oauth params plus the body (no oauth_token, empty token
    // secret).
    let url = provider.url("oauth/access_token");
    assert_eq!(url, format!("{base}/oauth/access_token"));
    let auth = provider.authorization(&url, None, None, &body);
    let header = auth.strip_prefix("OAuth ").expect("OAuth header");
    let mut oauth: Vec<(String, String)> = header
        .split(", ")
        .map(|kv| {
            let (k, v) = kv.split_once('=').unwrap();
            let v = urlencoding::decode(v.trim_matches('"'))
                .unwrap()
                .into_owned();
            (k.to_string(), v)
        })
        .collect();
    assert!(oauth.iter().all(|(k, _)| k != "oauth_token"));
    assert!(oauth.contains(&("oauth_consumer_key".into(), "ckey".into())));
    let sig_pos = oauth
        .iter()
        .position(|(k, _)| k == "oauth_signature")
        .unwrap();
    let (_, signature) = oauth.remove(sig_pos);
    let all: Vec<(&str, &str)> = oauth
        .iter()
        .map(|(k, v)| (k.as_str(), v.as_str()))
        .chain(body.iter().copied())
        .collect();
    assert_eq!(
        oauth1_signature("POST", &url, &all, "csecret", None),
        signature
    );

    // Missing username / consumer credentials are clear errors, not requests.
    let no_user = OAuthCallback {
        username: None,
        code: None,
        oauth_token: None,
        oauth_verifier: None,
        state: None,
        password: None,
    };
    assert!(provider.xauth_request(&no_user).is_err());
    let unconfigured =
        InstapaperProvider::new(String::new(), String::new()).with_api_base("http://x");
    let err = unconfigured.xauth_request(&callback).unwrap_err();
    assert!(err.message().contains("INSTAPAPER_CONSUMER_KEY"));
}

#[test]
fn queries_filter_sort_and_page() {
    let mut mgr = ReadLaterManager::new();
    for i in 0..5i64 {
        let mut a = article(&format!("id{i}"), &format!("p{i}"), i * 100);
        a.title = format!("Title {}", 5 - i);
        a.favorite = i % 2 == 0;
        mgr.save_article(&a);
    }
    let ids = |q: &ArticleQuery| -> Vec<String> {
        mgr.query_articles(q).into_iter().map(|a| a.id).collect()
    };
    assert_eq!(
        ids(&ArticleQuery::default()),
        ["id4", "id3", "id2", "id1", "id0"]
    );
    let q = ArticleQuery {
        favorite: Some(true),
        sort_order: Some(SortOrder::Asc),
        ..ArticleQuery::default()
    };
    assert_eq!(ids(&q), ["id0", "id2", "id4"]);
    let q = ArticleQuery {
        offset: Some(1),
        limit: Some(2),
        ..ArticleQuery::default()
    };
    assert_eq!(ids(&q), ["id3", "id2"]);
    let q = ArticleQuery {
        search: Some("TITLE 4".into()),
        ..ArticleQuery::default()
    };
    assert_eq!(ids(&q), ["id1"]);
    let q = ArticleQuery {
        sort_by: Some(ArticleSortBy::Title),
        limit: Some(1),
        ..ArticleQuery::default()
    };
    assert_eq!(ids(&q).len(), 1);
}

#[test]
fn delivered_articles_are_marked() {
    let mut mgr = ReadLaterManager::new();
    mgr.save_article(&article("id-1", "p1", 0));
    let a = mgr.mark_delivered("id-1", "doc-9", at(50)).unwrap();
    assert!(a.synced_to_device);
    assert_eq!(a.document_id.as_deref(), Some("doc-9"));
    assert_eq!(a.last_sync, Some(at(50)));
    assert!(mgr
        .read_status_candidates(ReadLaterProvider::Pocket)
        .is_empty());
    let mut read = mgr.get_article("id-1").unwrap();
    read.status = ReadStatus::Read;
    mgr.save_article(&read);
    assert_eq!(
        mgr.read_status_candidates(ReadLaterProvider::Pocket).len(),
        1
    );
    let err = mgr.mark_delivered("none", "d", at(0)).unwrap_err();
    assert_eq!(err.message(), "Article not found: none");
    mgr.delete_article("id-1");
    assert!(mgr.get_article("id-1").is_none());
}

#[test]
fn wallabag_entries_become_articles() {
    let entry = WallabagEntry {
        id: 7,
        url: "https://ex.com/7".into(),
        title: "Seven".into(),
        content: Some("<p>7</p>".into()),
        reading_time: Some(1),
        is_archived: 1,
        is_starred: 0,
        tags: vec!["x".into()],
        created_at: "2025-01-01T00:00:00+00:00".into(),
        updated_at: "2025-01-01T00:00:00+00:00".into(),
        preview_picture: None,
    };
    let all = wallabag::articles(&vec![entry]);
    assert_eq!(all.len(), 1);
    let a = &all[0];
    assert_eq!(a.provider_id, "7");
    assert_eq!(a.provider, ReadLaterProvider::Wallabag);
    assert_eq!(a.added_at, at(1_735_689_600));
    assert_eq!(a.word_count, Some(200));
    assert_eq!(a.status, ReadStatus::Archived);
    assert_eq!(a.id.len(), 36);
}

#[test]
fn providers_take_statuses_their_own_way() {
    assert_eq!(pocket::status_action(ReadStatus::Archived), Some("archive"));
    assert_eq!(
        instapaper::status_endpoint(ReadStatus::Archived),
        Some("bookmarks/archive")
    );
    assert_eq!(wallabag::archive_flag(ReadStatus::Unread), 0);
}

#[test]
fn an_id_that_is_taken_is_refused() {
    let config = |key: &str| ProviderConfig::Pocket {
        consumer_key: key.into(),
        access_token: None,
        username: None,
    };
    let mut mgr = ReadLaterManager::new();
    mgr.add_account(test_account("a", ReadLaterProvider::Pocket, config("first")))
        .unwrap();
    let err = mgr
        .add_account(test_account("a", ReadLaterProvider::Pocket, config("second")))
        .unwrap_err();
    match err {
        ReadLaterError::Database(m) => {
            assert_eq!(m, "UNIQUE constraint failed: readlater_accounts.id")
        }
        other => panic!("{other:?}"),
    }
    match &mgr.get_account("a").unwrap().config {
        ProviderConfig::Pocket { consumer_key, .. } => assert_eq!(consumer_key, "first"),
        other => panic!("{other:?}"),
    }
}

#[test]
fn tables_keep_their_order() {
    let mut t: Table<u32> = Table::new();
    for (k, v) in [("b", 1), ("a", 2), ("c", 3), ("a", 4)] {
        t.insert(k.into(), v);
    }
    let all = |t: &Table<u32>| -> Vec<(String, u32)> { t.entries.clone() };
    assert_eq!(all(&t), [("b".into(), 1), ("a".into(), 4), ("c".into(), 3)]);
    *t.get_mut("b").unwrap() = 9;
    assert_eq!(t.remove("a"), Some(4));
    assert_eq!(t.remove("a"), None);
    assert_eq!(all(&t), [("b".into(), 9), ("c".into(), 3)]);
}

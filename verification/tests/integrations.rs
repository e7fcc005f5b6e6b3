//! Cloud storage integrations: logins, conflicts, paths and what a sync decides.

use remarkable_server::clock::Timestamp;
use remarkable_server::integrations::api::{
    parse_provider, success_page, success_redirect_path, sync_config, sync_directories,
    sync_response, IntegrationState, SyncRequest,
};
use remarkable_server::integrations::conflict::{
    attempt_merge, conflict_name_at, Conflict, ConflictResolution, ConflictResolver,
    ConflictStrategy, ConflictType, MergeResult,
};
use remarkable_server::integrations::dropbox::{self, header_safe_json, Dropbox};
use remarkable_server::integrations::google_drive::{self, escape_query, GoogleDrive};
use remarkable_server::integrations::oauth::{
    exchange_refused, refresh_form, revoke_endpoint, OAuthConfig, OAuthToken, PkceFlow,
    TokenResponse,
};
use remarkable_server::integrations::onedrive::{
    self, chunk_end, chunk_step, content_range, encode_path, redirected, ChunkStep, OneDrive,
};
use remarkable_server::integrations::paths::{local_path_for, safe_components};
use remarkable_server::integrations::sync::{
    cloud_table, download_target, may_enter, CloudSync, Decision, LocalFile, ScanDecision,
    SyncConfig, SyncDirection, SyncRun, SyncState, SyncStatus,
};
use remarkable_server::integrations::{
    CloudFile, CloudProvider, IntegrationError, IntegrationManager, ProviderType,
    SyncFolderConfig,
};
use remarkable_server::table::Table;

fn at(seconds: i64) -> Timestamp {
    Timestamp { seconds, nanos: 0 }
}

fn token(access: &str, refresh: Option<&str>) -> OAuthToken {
    OAuthToken {
        access_token: access.into(),
        refresh_token: refresh.map(Into::into),
        token_type: "Bearer".into(),
        expires_at: None,
        scope: None,
    }
}

fn google() -> GoogleDrive {
    GoogleDrive::with_token(
        OAuthConfig::google_drive("id".into(), None, "http://localhost/cb".into()),
        token("t", None),
    )
}

fn cloud_file(id: &str, path: &str, modified_at: i64) -> CloudFile {
    CloudFile {
        id: id.into(),
        name: path.rsplit('/').next().unwrap().into(),
        mime_type: None,
        size: 3,
        modified_at,
        content_hash: None,
        parent_id: None,
        is_folder: false,
        path: path.into(),
        deleted: false,
    }
}

#[test]
fn merge_non_overlapping_text_edits() {
    let base = b"line1\nline2\nline3\nline4\n";
    let local = b"LINE1\nline2\nline3\nline4\n";
    let cloud = b"line1\nline2\nline3\nLINE4\n";
    match attempt_merge(local, cloud, Some(base), Some("text/plain")) {
        MergeResult::Success(m) => assert_eq!(m, b"LINE1\nline2\nline3\nLINE4\n"),
        other => panic!("expected Success, got {:?}", other),
    }
}

#[test]
fn merge_overlapping_text_edits_conflicts() {
    let base = b"a\nb\nc\n";
    let local = b"a\nLOCAL\nc\n";
    let cloud = b"a\nCLOUD\nc\n";
    assert!(matches!(
        attempt_merge(local, cloud, Some(base), Some("text/plain")),
        MergeResult::CannotMerge
    ));
}

#[test]
fn merge_one_side_changed_and_edge_cases() {
    let base = b"x\n";
    let changed = b"y\n";
    match attempt_merge(base, changed, Some(base), Some("application/json")) {
        MergeResult::Success(m) => assert_eq!(m, changed),
        other => panic!("expected Success, got {:?}", other),
    }
    // No base and divergent content -> cannot merge
    assert!(matches!(
        attempt_merge(b"a\n", b"b\n", None, Some("text/plain")),
        MergeResult::CannotMerge
    ));
    // Binary types are never merged
    assert!(matches!(
        attempt_merge(b"a", b"b", Some(b"c"), Some("application/pdf")),
        MergeResult::Unsupported
    ));
}

#[test]
fn test_conflict_resolution_newer_wins() {
    let mut resolver = ConflictResolver::new(ConflictStrategy::NewerWins);

    let mut conflict = Conflict {
        local_path: "/test.txt".into(),
        cloud_file: CloudFile {
            id: "123".into(),
            name: "test.txt".into(),
            mime_type: Some("text/plain".into()),
            size: 100,
            modified_at: 1000,
            content_hash: None,
            parent_id: None,
            is_folder: false,
            path: "/test.txt".into(),
            deleted: false,
        },
        local_modified_at: 2000, // Local is newer
        local_size: 150,
        conflict_type: ConflictType::BothModified,
        resolution: None,
    };

    let resolution = resolver.resolve(&mut conflict);
    assert!(matches!(resolution, ConflictResolution::UseLocal));
}

#[test]
fn test_conflict_name_generation() {
    let resolver = ConflictResolver::new(ConflictStrategy::KeepBoth);

    let name = resolver.generate_conflict_name("document.pdf");
    assert!(name.starts_with("document_conflict_"));
    assert!(name.ends_with(".pdf"));

    let name_no_ext = resolver.generate_conflict_name("README");
    assert!(name_no_ext.starts_with("README_conflict_"));
}

#[test]
fn conflict_names_tell_the_time() {
    assert_eq!(
        conflict_name_at("document.pdf", at(1_735_689_600)),
        "document_conflict_20250101_000000.pdf"
    );
}

#[test]
fn conflicts_that_need_the_user_wait_for_them() {
    let mut resolver = ConflictResolver::new(ConflictStrategy::AskUser);
    let cloud = cloud_file("c", "/a.pdf", 500);
    let mut conflict =
        ConflictResolver::detect_conflict("/srv/a.pdf", 400, 3, true, Some(&cloud), Some(100))
            .unwrap();
    assert_eq!(conflict.conflict_type, ConflictType::BothModified);
    assert!(matches!(
        resolver.resolve(&mut conflict),
        ConflictResolution::ManualRequired
    ));
    assert_eq!(resolver.pending_conflicts().len(), 1);
    let done = resolver
        .resolve_manual(0, ConflictResolution::UseCloud)
        .unwrap();
    assert!(matches!(
        done.resolution,
        Some(ConflictResolution::UseCloud)
    ));
    assert!(resolver.pending_conflicts().is_empty());
    assert!(resolver.resolve_manual(0, ConflictResolution::Skip).is_none());
    let _ = resolver.resolve(&mut conflict);
    assert_eq!(resolver.pending_conflicts().len(), 1);
    resolver.clear_pending();
    assert!(resolver.pending_conflicts().is_empty());
    assert!(
        ConflictResolver::detect_conflict("/srv/a.pdf", 50, 3, true, Some(&cloud), Some(100))
            .is_none(),
        "only the cloud's version changed"
    );
}

#[test]
fn test_pkce_challenge() {
    let flow = PkceFlow::new(OAuthConfig::google_drive(
        "test_client".into(),
        None,
        "http://localhost:8080/callback".into(),
    ));

    // Verify challenge is S256 of verifier
    let expected = PkceFlow::generate_challenge(flow.code_verifier());
    assert_eq!(flow.code_challenge(), expected);
}

#[test]
fn pkce_challenge_matches_rfc7636_appendix_b() {
    assert_eq!(
        PkceFlow::generate_challenge("dBjftJeZ4CVP-mB92K27uhbUJU1p1r_wW1gFWFOEjXk"),
        "E9Melhoa2OwvFrEMTJguCHaoeK1t8URWbuGJSstw-cM"
    );
    let flow = PkceFlow::from_random(
        OAuthConfig::dropbox("cid".into(), Some("s".into()), "http://cb".into()),
        &vec![0u8; 32],
        &vec![255u8; 16],
    );
    assert_eq!(
        flow.code_verifier(),
        "AAAAAAAAAAAAAAAAAAAAAAAAAAAAAAAAAAAAAAAAAAA"
    );
    assert_eq!(flow.state(), "_____________________w");
    let url = flow.authorization_url();
    assert!(url.starts_with("https://www.dropbox.com/oauth2/authorize?client_id=cid&"));
    assert!(url.contains("redirect_uri=http%3A%2F%2Fcb"));
    let form = flow.exchange_form("code-1");
    assert!(form.contains(&("grant_type", "authorization_code")));
    assert!(form.contains(&("code", "code-1")));
    assert!(form.contains(&("client_secret", "s")));
    let config = OAuthConfig::onedrive("oid".into(), None, "http://cb".into());
    assert!(refresh_form(&config, "rt").contains(&("refresh_token", "rt")));
}

#[test]
fn test_token_expiry() {
    let now = chrono::Utc::now().timestamp();
    let expiring = |expires_at: i64| OAuthToken {
        expires_at: Some(expires_at),
        ..token("test", None)
    };
    let expired = expiring(now - 100); // Expired
    assert!(expired.is_expired());

    let valid_token = expiring(now + 3600); // Valid
    assert!(!valid_token.is_expired());

    assert!(!token("test", None).is_expired());
    assert!(expiring(1000).is_expired_at(700));
    assert!(!expiring(1000).is_expired_at(699));
    let response = TokenResponse {
        access_token: "a".into(),
        refresh_token: None,
        token_type: None,
        expires_in: Some(60),
        scope: None,
    };
    let t = OAuthToken::from_response_at(&response, 1000);
    assert_eq!(t.expires_at, Some(1060));
    assert_eq!(t.token_type, "Bearer");
    assert!(exchange_refused(200, "").is_none());
    assert!(matches!(
        exchange_refused(400, "bad"),
        Some(IntegrationError::OAuth(_))
    ));
}

#[test]
fn callback_redirect_target_is_routed() {
    for mount in ["/integrations/v2/cloud", "/integrations/v2/storage"] {
        let target = success_redirect_path(&format!("{}/callback", mount), ProviderType::Dropbox);
        assert_eq!(target, format!("{}/providers/dropbox/success", mount));
    }
    assert!(success_page("dropbox").is_ok());
    // Every provider's name must round-trip through parse_provider.
    for p in [
        ProviderType::GoogleDrive,
        ProviderType::Dropbox,
        ProviderType::OneDrive,
    ] {
        assert_eq!(parse_provider(p.name()).unwrap(), p);
    }
    assert_eq!(parse_provider("icloud").unwrap_err().status, 400);
}

#[test]
fn disconnect_deletes_locally_when_revoke_unavailable() {
    let mut state = IntegrationState::new();
    state.set_token(ProviderType::OneDrive, token("a", Some("r")));
    let (provider, removed) = state.disconnect_provider("onedrive").unwrap();
    assert_eq!(provider, ProviderType::OneDrive);
    assert_eq!(removed.unwrap().access_token, "a");
    assert!(state.get_token(ProviderType::OneDrive).is_none());
    assert!(revoke_endpoint(ProviderType::GoogleDrive).is_some());
    assert!(revoke_endpoint(ProviderType::Dropbox).is_some());
    assert!(revoke_endpoint(ProviderType::OneDrive).is_none());
}

#[test]
fn queued_sync_rechecks_token_after_lock() {
    let mut state = IntegrationState::with_sync_base("/srv/integrations".into());
    state.configure_provider(OAuthConfig::onedrive(
        "id".into(),
        None,
        "http://localhost/cb".into(),
    ));
    state.set_token(ProviderType::OneDrive, token("old", None));
    assert!(state.account(ProviderType::OneDrive).is_ok());
    state.disconnect_provider("onedrive").unwrap();
    let err = state.account(ProviderType::OneDrive).unwrap_err();
    assert_eq!((err.status, err.reason.as_str()), (400, "Not authenticated"));
}

#[test]
fn sync_disabled_without_base() {
    assert_eq!(
        IntegrationState::new().sync_directory().unwrap_err().status,
        503
    );
    let state = IntegrationState::with_sync_base("/srv/integrations".into());
    assert_eq!(state.sync_directory().unwrap(), "/srv/integrations");
}

#[test]
fn sync_dir_confined_to_base() {
    // Default and "." map to the base itself.
    assert!(sync_directories(None).unwrap().is_empty());
    assert!(sync_directories(Some(".")).unwrap().is_empty());
    // Relative paths land under the base.
    assert_eq!(
        sync_directories(Some("gdrive/notes")).unwrap(),
        ["gdrive", "notes"]
    );
    // Absolute paths, `..` and odd separators are rejected.
    for p in [
        "/etc",
        "/",
        "..",
        "../x",
        "a/../../x",
        "a/..",
        "a\\..\\x",
        "a\0b",
    ] {
        let err = match sync_directories(Some(p)) {
            Err(e) => e,
            Ok(_) => panic!("accepted {:?}", p),
        };
        assert_eq!(err.status, 400, "{:?}", p);
    }
}

#[test]
fn logins_are_used_once() {
    let mut state = IntegrationState::new();
    assert_eq!(state.get_auth_url("dropbox").unwrap_err().status, 400);
    state.configure_provider(OAuthConfig::dropbox(
        "cid".into(),
        None,
        "http://cb".into(),
    ));
    let auth = state.get_auth_url("dropbox").unwrap();
    assert!(auth.auth_url.contains(&auth.state));
    assert_eq!(state.oauth_callback("bogus").err().unwrap().status, 400);
    let flow = state.oauth_callback(&auth.state).unwrap();
    assert_eq!(flow.config.client_id, "cid");
    assert!(state.oauth_callback(&auth.state).is_err());
    let status = state.token_status("dropbox").unwrap();
    assert!(!status.authenticated);
    assert_eq!(state.list_providers().len(), 3);
    assert!(state.refresh_request("dropbox").is_err());
}

#[test]
fn sync_requests_are_read() {
    let req = |direction: Option<&str>| SyncRequest {
        provider: ProviderType::OneDrive,
        local_path: None,
        cloud_folder: Some("F".into()),
        direction: direction.map(Into::into),
    };
    let c = sync_config(req(Some("upload")), "/srv".into());
    assert_eq!(c.direction, SyncDirection::Upload);
    assert_eq!(c.cloud_folder.as_deref(), Some("F"));
    assert_eq!(c.local_path, "/srv");
    assert_eq!(
        sync_config(req(None), "/srv".into()).direction,
        SyncDirection::Bidirectional
    );
    let mut run = SyncRun::new();
    run.listing_failed(true, &IntegrationError::QuotaExceeded);
    let r = sync_response(run.result);
    assert_eq!(r.errors.len(), 1);
    assert_eq!(r.uploaded, 0);
}

fn response_kinds(error_of: fn(u16, Option<&str>, &str) -> IntegrationError) {
    for status in [401, 429, 502, 503] {
        let err = error_of(status, None, "");
        assert!(!err.is_permanent(), "{status}: {}", err.message());
    }
    assert!(matches!(
        error_of(429, Some("7"), ""),
        IntegrationError::RateLimited {
            retry_after_secs: 7
        }
    ));
}

/// Deleted paths (409 `path/not_found`) and Paper docs (409 `unsupported_file`) fail permanently;
/// auth and 5xx stay retryable.
#[test]
fn dropbox_download_error_mapping() {
    let err = dropbox::response_error(409, None, r#"{"error_summary":"path/not_found/.."}"#);
    assert!(matches!(err, IntegrationError::NotFound(_)));
    let err = dropbox::response_error(409, None, r#"{"error_summary":"unsupported_file/.."}"#);
    assert!(matches!(err, IntegrationError::NotDownloadable(_)));
    response_kinds(dropbox::response_error);
}

#[test]
fn google_drive_download_error_mapping() {
    let err = google_drive::response_error(404, None, "");
    assert!(matches!(err, IntegrationError::NotFound(_)));
    let err = google_drive::response_error(
        403,
        None,
        r#"{"error":{"errors":[{"reason":"fileNotDownloadable"}]}}"#,
    );
    assert!(matches!(err, IntegrationError::NotDownloadable(_)));
    assert!(err.is_permanent());
    response_kinds(google_drive::response_error);
    assert_eq!(
        google_drive::response_error(500, None, "oops").message(),
        "API error: 500 Internal Server Error: oops"
    );
}

/// A deleted item (404, directly or at the redirected download URL) fails permanently; throttling
/// and 5xx stay retryable.
#[test]
fn onedrive_download_error_mapping() {
    let err = onedrive::response_error(404, None, "");
    assert!(matches!(err, IntegrationError::NotFound(_)));
    response_kinds(onedrive::response_error);
    let err = onedrive::response_error(410, None, r#"{"error":{"code":"resyncRequired"}}"#);
    assert!(matches!(err, IntegrationError::ResyncRequired(_)));
    assert_eq!(
        redirected(302, Some("/blob/ok")).unwrap(),
        Some("/blob/ok")
    );
    assert_eq!(redirected(200, None).unwrap(), None);
    assert!(redirected(302, None).is_err());
}

#[test]
fn api_arg_header_is_ascii_and_round_trips() {
    let path = "/Notes/café/😀 \u{7f}.pdf";
    let mut arg = serde_json::Map::new();
    arg.insert("path".into(), serde_json::Value::String(path.into()));
    let json = serde_json::to_string(&serde_json::Value::Object(arg)).unwrap();
    let safe = header_safe_json(&json);
    assert!(
        reqwest::header::HeaderValue::from_str(&safe).is_ok(),
        "{safe}"
    );
    assert!(safe.contains("caf\\u00e9") && safe.contains("\\ud83d\\ude00"));
    let back: serde_json::Value = serde_json::from_str(&safe).unwrap();
    assert_eq!(back["path"], path);
}

#[test]
fn query_values_are_escaped() {
    assert_eq!(escape_query(r"it's\x"), r"it\'s\\x");
}

#[test]
fn path_segments_are_encoded_but_slashes_kept() {
    assert_eq!(
        encode_path("My Notes/50% #1?/café.pdf"),
        "My%20Notes/50%25%20%231%3F/caf%C3%A9.pdf"
    );
    assert_eq!(encode_path("a.pdf"), "a.pdf");
}

#[test]
fn uploads_go_in_chunks() {
    let total = 25 * 1024 * 1024;
    let mut offset = 0;
    let mut ranges = Vec::new();
    while offset < total {
        let end = chunk_end(offset, total);
        ranges.push(content_range(offset, end, total));
        offset = end;
    }
    assert_eq!(
        ranges,
        [
            "bytes 0-10485759/26214400",
            "bytes 10485760-20971519/26214400",
            "bytes 20971520-26214399/26214400",
        ]
    );
    assert!(matches!(chunk_step(202, "", 0), ChunkStep::Continue));
    assert!(matches!(chunk_step(201, "{}", 0), ChunkStep::Complete));
    match chunk_step(500, "no", 10) {
        ChunkStep::Failed(e) => assert_eq!(
            e.message(),
            "API error: Upload failed at offset 10: 500 Internal Server Error - no"
        ),
        other => panic!("{other:?}"),
    }
}

#[test]
fn urls_name_what_they_ask_for() {
    let d = google().with_base_urls("http://api", "http://up");
    assert!(d
        .list_url(&google_drive::entries_query("A"), Some("p2"))
        .contains("pageToken=p2"));
    assert!(google_drive::entries_query("A").ends_with("in parents and trashed = false"));
    let o = OneDrive::new(OAuthConfig::onedrive("id".into(), None, "cb".into()))
        .with_base_url("http://graph/");
    assert!(o.delta_url(None).contains("latest"));
    assert_eq!(o.delta_url(Some("http://graph/next")), "http://graph/next");
    assert!(!o.is_authenticated());
    let b = Dropbox::with_token(
        OAuthConfig::dropbox("id".into(), None, "cb".into()),
        token("t", None),
    );
    assert_eq!(b.access_token().unwrap(), "t");
    assert!(b.refresh_grant().is_err());
    assert_eq!(dropbox::entry_path(Some("/Notes"), "a.pdf"), "/Notes/a.pdf");
    let q = dropbox::quota(10, Some(100));
    assert_eq!((q.used, q.total), (10, Some(100)));
    let q = google_drive::quota(&Some("7".into()), &None, &Some("x".into()));
    assert_eq!((q.used, q.total, q.trash), (7, None, None));
}

#[test]
fn multipart_bodies_hold_metadata_and_content() {
    let body = google_drive::multipart_body("{\"name\":\"a\"}", Some("text/plain"), b"hello");
    let text = String::from_utf8(body).unwrap();
    let meta = text.find("{\"name\":\"a\"}").unwrap();
    let content = text.find("hello").unwrap();
    assert!(meta < content);
    assert!(text.starts_with(&format!("--{}", google_drive::BOUNDARY)));
    assert!(text
        .trim_end()
        .ends_with(&format!("--{}--", google_drive::BOUNDARY)));
}

const EVIL: &[&str] = &[
    "../x",
    "/../x",
    "//etc/x",
    "a/../../x",
    "..\\x",
    "a\\..\\..\\x",
    "C:/x",
    "c:x",
    "a/./b",
    "a//b",
    "",
    "/",
    "x\0y",
    "..",
];

#[test]
fn traversal_names_rejected() {
    for p in [
        "../x",
        "/etc/x",
        "a/../../x",
        "..\\x",
        "C:\\x",
        "a\0b",
        "./x",
        "a//b",
        "",
        "..",
    ] {
        assert!(safe_components(p).is_err(), "accepted {:?}", p);
    }
    let base = "/srv/sync";
    for p in EVIL {
        assert!(local_path_for(base, p).is_err(), "accepted {:?}", p);
    }
    // A provider-rooted path maps under the base, never to the real /etc.
    assert_eq!(local_path_for(base, "/etc/x").unwrap(), "/srv/sync/etc/x");
    assert_eq!(
        local_path_for(base, "/Notes/a b.pdf").unwrap(),
        "/srv/sync/Notes/a b.pdf"
    );
    assert_eq!(
        safe_components("a/b/c.pdf").unwrap(),
        vec!["a", "b", "c.pdf"]
    );
}

fn download_config(local_path: &str) -> SyncConfig {
    SyncConfig {
        local_path: local_path.into(),
        direction: SyncDirection::Download,
        ..SyncConfig::default()
    }
}

#[test]
fn download_skips_traversal_and_keeps_syncing() {
    let mut files: Vec<CloudFile> = EVIL
        .iter()
        .enumerate()
        .map(|(i, p)| cloud_file(&format!("evil{}", i), p, 1))
        .collect();
    files.push(cloud_file("good", "/sub/ok.txt", 1));
    let mut sync = CloudSync::new(google(), download_config("/srv/root"));
    let mut run = SyncRun::new();
    for f in &files {
        let outcome = download_target(&f.path).map(|_| ());
        sync.record_download(f, outcome, &mut run);
    }
    sync.finish_sync(&mut run, 9);
    assert_eq!(run.result.downloaded, 1);
    assert_eq!(run.result.status, SyncStatus::PartialSuccess);
    assert_eq!(run.result.errors.len(), EVIL.len());
    assert_eq!(
        download_target("/sub/ok.txt").unwrap(),
        (vec!["sub".to_string()], "ok.txt".to_string())
    );
    // Delta sync applies the same validation.
    let mut sync = CloudSync::new(google(), download_config("/srv/root2"));
    let mut run = SyncRun::new();
    let mut taken = Vec::new();
    for f in &files {
        if let Some(path) = sync.change_path(f, &mut run) {
            assert!(matches!(
                sync.decide_change(f, None, at(0)),
                Decision::Download
            ));
            sync.record_change(f, Ok(()), &mut run);
            taken.push(path);
        }
    }
    assert_eq!(taken, ["/srv/root2/sub/ok.txt"]);
    assert_eq!(run.result.downloaded, 1);
    assert_eq!(run.result.errors.len(), EVIL.len());
}

#[test]
fn download_refuses_symlinked_dir_escape() {
    // `link` inside the root resolves to its parent.
    assert!(!may_enter("/srv/root", "/srv", true));
    assert!(!may_enter("/srv/root", "/srv/rooted", true));
    assert!(may_enter("/srv/root", "/srv/root/real", true));
    assert!(!may_enter("/srv/root", "/srv/root/file", false));
}

#[test]
fn upload_preserves_nested_paths() {
    let config = SyncConfig {
        local_path: "/srv".into(),
        direction: SyncDirection::Upload,
        ..SyncConfig::default()
    };
    let sync = CloudSync::new(google(), config);
    let mut local = Table::new();
    for p in ["a/same.pdf", "b/c/same.pdf", "top.pdf"] {
        local.insert(
            p.to_string(),
            LocalFile {
                full_path: format!("/srv/{p}"),
                modified_at: 5,
                size: 1,
            },
        );
    }
    let parts = sync.partition(&local, &cloud_table(&Vec::new()));
    let mut names = parts.uploads;
    names.sort();
    assert_eq!(names, vec!["a/same.pdf", "b/c/same.pdf", "top.pdf"]);
    assert!(parts.downloads.is_empty() && parts.common.is_empty());
}

#[test]
fn test_glob_match() {
    assert!(CloudSync::<GoogleDrive>::glob_match("*.txt", "test.txt"));
    assert!(CloudSync::<GoogleDrive>::glob_match("*.txt", "file.txt"));
    assert!(!CloudSync::<GoogleDrive>::glob_match("*.txt", "test.pdf"));
    assert!(CloudSync::<GoogleDrive>::glob_match("test?", "test1"));
    assert!(!CloudSync::<GoogleDrive>::glob_match("test?", "test12"));
    assert!(CloudSync::<GoogleDrive>::glob_match("*", "anything"));
}

#[test]
fn scans_leave_out_what_is_excluded() {
    let config = SyncConfig {
        exclude_patterns: vec!["*.tmp".into()],
        max_file_size: Some(100),
        ..SyncConfig::default()
    };
    let sync = CloudSync::new(google(), config);
    assert_eq!(sync.scan_entry("a.pdf", "a.pdf", false, 5), ScanDecision::Take);
    assert_eq!(sync.scan_entry("a.tmp", "a.tmp", false, 5), ScanDecision::Skip);
    assert_eq!(sync.scan_entry(".git", ".git", true, 0), ScanDecision::Skip);
    assert_eq!(sync.scan_entry("big", "big", false, 101), ScanDecision::Skip);
    assert_eq!(sync.scan_entry("d", "d", true, 0), ScanDecision::Enter);
}

#[test]
fn the_newer_version_is_taken_and_nothing_else() {
    let mut sync = CloudSync::new(google(), SyncConfig::default());
    let local = |modified_at: i64| LocalFile {
        full_path: "/srv/a.pdf".into(),
        modified_at,
        size: 1,
    };
    let mut run = SyncRun::new();
    sync.record_download(&cloud_file("c", "a.pdf", 100), Ok(()), &mut run);
    sync.finish_sync(&mut run, 150);
    assert!(matches!(
        sync.decide("a.pdf", &local(100), &cloud_file("c", "a.pdf", 100), at(0)),
        Decision::Nothing
    ));
    assert!(matches!(
        sync.decide("a.pdf", &local(200), &cloud_file("c", "a.pdf", 100), at(0)),
        Decision::Upload
    ));
    assert!(matches!(
        sync.decide("a.pdf", &local(100), &cloud_file("c", "a.pdf", 200), at(0)),
        Decision::Download
    ));
}

/// A delta change to `/A/f.pdf` lands there, never on the unrelated root-level `/f.pdf`.
#[test]
fn delta_sync_applies_nested_change_at_its_path() {
    let state = SyncState {
        cursor: Some("nested".into()),
        ..SyncState::default()
    };
    let mut sync = CloudSync::with_state(google(), download_config("/srv"), state);
    let mut run = SyncRun::new();
    let change = cloud_file("nested", "/A/f.pdf", 1);
    assert_eq!(
        sync.change_path(&change, &mut run).as_deref(),
        Some("/srv/A/f.pdf")
    );
    sync.record_change(&change, Ok(()), &mut run);
    sync.finish_delta(Some("next".into()), &mut run, 7);
    assert!(run.result.errors.is_empty());
    assert_eq!(run.result.downloaded, 1);
    assert_eq!(sync.state().cursor.as_deref(), Some("next"));
    assert_eq!(sync.state().last_sync, Some(7));
}

/// Deleted files (404) and Docs editor files (403 fileNotDownloadable) fail permanently, so the
/// cursor advances; a 5xx is transient and holds it.
#[test]
fn delta_sync_download_errors_permanent_vs_transient() {
    let start = |cursor: &str| {
        let state = SyncState {
            cursor: Some(cursor.into()),
            ..SyncState::default()
        };
        CloudSync::with_state(google(), download_config("/srv"), state)
    };
    let mut sync = start("dl");
    let mut run = SyncRun::new();
    let missing = google_drive::response_error(404, None, "");
    sync.record_change(&cloud_file("missing", "/missing.pdf", 1), Err(missing), &mut run);
    let gdoc = google_drive::response_error(403, None, "fileNotDownloadable");
    sync.record_change(&cloud_file("gdoc", "/doc.pdf", 1), Err(gdoc), &mut run);
    sync.record_change(&cloud_file("ok", "/ok.pdf", 1), Ok(()), &mut run);
    sync.finish_delta(Some("next".into()), &mut run, 1);
    assert_eq!((run.result.downloaded, run.result.errors.len()), (1, 2));
    assert_eq!(sync.state().cursor.as_deref(), Some("next"));

    let mut sync = start("flaky");
    let mut run = SyncRun::new();
    sync.record_change(&cloud_file("ok", "/ok.pdf", 1), Ok(()), &mut run);
    let flaky = google_drive::response_error(503, None, "");
    sync.record_change(&cloud_file("flaky", "/flaky.pdf", 1), Err(flaky), &mut run);
    sync.finish_delta(Some("next".into()), &mut run, 1);
    assert_eq!((run.result.downloaded, run.result.errors.len()), (1, 1));
    assert_eq!(sync.state().cursor.as_deref(), Some("flaky"));
}

#[test]
fn delta_sync_resyncs_after_410() {
    let state = SyncState {
        cursor: Some("expired".into()),
        ..SyncState::default()
    };
    let mut sync = CloudSync::with_state(google(), download_config("/srv"), state);
    let run = SyncRun::new();
    sync.finish_resync(Some("D0".into()), &run);
    assert_eq!(sync.state().cursor.as_deref(), Some("D0"));
    let mut failed = SyncRun::new();
    sync.record_download(
        &cloud_file("c", "/a.pdf", 1),
        Err(onedrive::response_error(503, None, "")),
        &mut failed,
    );
    sync.finish_resync(Some("D1".into()), &failed);
    assert_eq!(sync.state().cursor.as_deref(), Some("D0"));
}

#[test]
fn one_provider_of_a_kind() {
    let mut m: IntegrationManager<GoogleDrive> = IntegrationManager::new();
    m.add_provider(google());
    let mut second = google();
    second.config.client_id = "other".into();
    m.add_provider(second);
    assert_eq!(m.providers.len(), 1);
    assert_eq!(
        m.get_provider(ProviderType::GoogleDrive)
            .unwrap()
            .config
            .client_id,
        "other"
    );
    assert!(m.get_provider(ProviderType::Dropbox).is_none());
    m.get_provider_mut(ProviderType::GoogleDrive)
        .unwrap()
        .config
        .client_id = "third".into();
    assert!(m.get_provider_mut(ProviderType::OneDrive).is_none());
    assert_eq!(m.providers[0].config.client_id, "third");
}

#[test]
fn a_manager_keeps_folders_and_a_strategy() {
    let mut m: IntegrationManager<GoogleDrive> = IntegrationManager::new();
    m.add_sync_config(SyncFolderConfig {
        cloud_path: "F".into(),
        local_path: "notes".into(),
        direction: SyncDirection::Download,
        recursive: true,
        include_patterns: vec!["*.pdf".into()],
        exclude_patterns: vec![],
    });
    m.set_conflict_strategy(ConflictStrategy::CloudWins);
    assert_eq!(m.sync_configs.len(), 1);
    assert_eq!(m.sync_configs[0].local_path, "notes");
    let cloud = cloud_file("c", "/a.pdf", 400);
    let mut conflict =
        ConflictResolver::detect_conflict("/srv/a.pdf", 500, 3, true, Some(&cloud), Some(100))
            .unwrap();
    // The local version is the newer one.
    assert!(matches!(
        m.conflict_resolver.resolve(&mut conflict),
        ConflictResolution::UseCloud
    ));
}

#[test]
fn errors_are_told_in_words() {
    assert_eq!(
        IntegrationError::NotConfigured.message(),
        "Provider not configured"
    );
    assert_eq!(
        IntegrationError::RateLimited {
            retry_after_secs: 9
        }
        .message(),
        "Rate limited, retry after 9s"
    );
    assert_eq!(IntegrationError::TokenExpired.message(), "Token expired");
}

//! The server's settings, device login, passcode resets, instructions and older protocols.

use remarkable_server::clock::Timestamp;
use remarkable_server::config::{
    init_readlater_manager, parse_args, screenshare_listener, screenshare_viewer, wants_pairing,
    ViewerEnv, ViewerError, NEEDS_CERT, PAIRING_USER,
};
use remarkable_server::error::ServerError;
use remarkable_server::mdm::{EnqueueReq, Field, MdmQueue, StatusBody, LOCAL_USER};
use remarkable_server::mqtt::{after, ChangeType, MqttConfig, MqttError, PublishStep};
use remarkable_server::oauth::{
    device_credential, device_exchange, public_base, refreshed, token, user_code, bundle_value,
    DeviceCodes, Poll, TokenRequest, MAX_PENDING, NANOS, SCOPES,
};
use remarkable_server::passcode::{
    require_other_device, Caller, PasscodeReset, PasscodeResets, DEFAULT_NAME,
};
use remarkable_server::protocol::{
    document_kind, stored_name, v15_batch_sync, v15_documents, v1_delete, v1_documents,
    v1_list_docs, v1_update_status, v1_upload_request, v2_get_root, v4_file_headers, v4_get_root,
    SyncVersion, V1DeleteRequest, V1StatusUpdate, V1UploadRequest,
};
use remarkable_server::readlater::{
    ArticleQuery, OAuthState, ProviderConfig, ReadLaterError, ReadLaterProvider, ReadStatus,
    SyncResult,
};
use remarkable_server::readlater::manager::ReadLaterManager;
use remarkable_server::readlater_api::{
    add_account, auth_url, complete_oauth, flow_of, get_account, get_article, list_accounts,
    list_articles, server_error, update_account, update_article, AddAccountRequest,
    StartOAuthRequest, SyncAllResponse, UpdateAccountRequest, UpdateArticleRequest,
};
use remarkable_server::{init_calendar_manager, ServerConfig};

fn at(seconds: i64) -> Timestamp {
    Timestamp { seconds, nanos: 0 }
}

const REQ: &str = "0b1c2d3e-0000-4000-8000-000000000001";

fn device(user: &str, device_id: &str) -> Caller {
    Caller {
        user_id: user.into(),
        device_id: device_id.into(),
        device_desc: "remarkable".into(),
    }
}

fn requested(by: &Caller) -> PasscodeResets {
    let mut resets = PasscodeResets::new();
    let (created, r) = resets.create(by, REQ, at(1000)).unwrap();
    assert!(created);
    assert!(!r.approved);
    resets
}

#[test]
fn requesting_device_cannot_approve_or_deny_itself() {
    let a = device("user-1", "tablet-a");
    let mut resets = requested(&a);
    assert_eq!(
        resets.device_approve(&a, REQ, at(1001)).err().unwrap().status(),
        403
    );
    assert_eq!(
        resets.device_deny(&a, REQ, at(1001)).err().unwrap().status(),
        403
    );
    // still pending and still present
    assert!(
        !resets
            .get_passcode_reset(REQ, "user-1", at(1001))
            .unwrap()
            .approved
    );
}

#[test]
fn other_device_of_same_user_approves() {
    let a = device("user-1", "tablet-a");
    let mut resets = requested(&a);
    let b = device("user-1", "tablet-b");
    let (r, msg) = resets.device_approve(&b, REQ, at(1001)).unwrap();
    assert!(r.approved);
    assert_eq!(r.device_id, "tablet-a");
    assert_eq!(msg.message.attributes.event, "PasscodeResetApproved");
    // the requester's re-POST (how firmware 3.3.2 resumes) now sees it approved
    let (created, r) = resets.create(&a, REQ, at(1002)).unwrap();
    assert!(!created);
    assert!(r.approved);
}

#[test]
fn other_device_of_same_user_denies() {
    let a = device("user-1", "tablet-a");
    let mut resets = requested(&a);
    let b = device("user-1", "tablet-b");
    let msg = resets.device_deny(&b, REQ, at(1001)).unwrap();
    assert_eq!(msg.message.attributes.event, "PasscodeResetDenied");
    assert_eq!(
        resets
            .get_passcode_reset(REQ, "user-1", at(1001))
            .unwrap_err()
            .status(),
        404
    );
}

#[test]
fn other_users_device_is_rejected() {
    let a = device("user-1", "tablet-a");
    let mut resets = requested(&a);
    let mallory = device("user-2", "tablet-m");
    assert_eq!(
        resets
            .device_approve(&mallory, REQ, at(1001))
            .err()
            .unwrap()
            .status(),
        404
    );
    assert_eq!(
        resets
            .device_deny(&mallory, REQ, at(1001))
            .err()
            .unwrap()
            .status(),
        404
    );
    assert!(
        !resets
            .get_passcode_reset(REQ, "user-1", at(1001))
            .unwrap()
            .approved
    );
}

#[test]
fn deny_of_expired_request_removes_the_row() {
    let now = 1_000_000;
    let stale = || PasscodeReset {
        device_id: "tablet-a".into(),
        device_name: "reMarkable".into(),
        request_id: REQ.into(),
        created: at(now - 48 * 3600),
        expires: at(now - 24 * 3600),
        approved: false,
    };
    let mut resets = PasscodeResets::new();
    assert!(resets.create_passcode_reset(stale(), "user-1"));
    assert!(!resets.create_passcode_reset(stale(), "user-1"));
    let b = device("user-1", "tablet-b");
    assert_eq!(
        resets.device_deny(&b, REQ, at(now)).err().unwrap().status(),
        404
    );
    // row is gone: the same id can be stored again
    assert!(resets.create_passcode_reset(stale(), "user-1"));
}

#[test]
fn admin_approval_still_works_for_the_requesting_device() {
    let a = device("user-1", "tablet-a");
    let mut resets = requested(&a);
    let (r, msg) = resets.approve_and_notify(REQ, None, at(1001)).unwrap();
    assert!(r.approved);
    assert_eq!(
        msg.message.attributes.device_id.as_deref(),
        Some("tablet-a"),
        "PasscodeResetApproved pushed to the device"
    );
    assert!(
        resets
            .get_passcode_reset(REQ, "user-1", at(1001))
            .unwrap()
            .approved
    );
    assert!(resets
        .approve_and_notify("unknown", None, at(1001))
        .is_err());
}

#[test]
fn requests_stand_for_a_day() {
    let mut bare = device("user-1", "tablet-a");
    bare.device_desc = String::new();
    let mut resets = PasscodeResets::new();
    let (_, r) = resets.create(&bare, REQ, at(1000)).unwrap();
    assert_eq!(r.device_name, DEFAULT_NAME);
    assert_eq!(r.expires, at(1000 + 86_400));
    assert!(resets
        .get_passcode_reset(REQ, "user-1", at(1000 + 86_399))
        .is_ok());
    assert!(resets
        .get_passcode_reset(REQ, "user-1", at(1000 + 86_400))
        .is_err());
    match require_other_device(&mut resets, REQ, "user-1", "tablet-a", at(1001)) {
        Err(ServerError::Forbidden(m)) => {
            assert_eq!(m, "a device cannot approve or deny its own passcode reset")
        }
        other => panic!("{other:?}"),
    }
}

#[test]
fn device_flow_refresh_and_exchange() {
    let mut codes = DeviceCodes::new(false);
    // 1. device/code
    let dc = codes.device_code("https://local.test", 0);
    let code = dc.device_code;
    assert_eq!(dc.user_code.len(), 9);
    assert_eq!(code.len(), 32);
    assert!(dc.user_code.bytes().enumerate().all(|(i, b)| match i {
        4 => b == b'-',
        _ => b.is_ascii_digit(),
    }));
    assert_eq!(dc.verification_uri, "https://local.test/oauth/verify");
    assert_eq!(
        dc.verification_uri_complete,
        format!("https://local.test/oauth/verify?user_code={}", dc.user_code)
    );
    assert_eq!((dc.expires_in, dc.interval), (600, 5));

    // 2. device_code grant -> access/refresh/id
    let grant = Some("urn:ietf:params:oauth:grant-type:device_code");
    match token(grant, Some(&code), None).unwrap() {
        TokenRequest::Device(c) => assert_eq!(c, code),
        other => panic!("{other:?}"),
    }
    match codes.poll(&code, NANOS) {
        Poll::Granted(device) => assert_eq!(device, format!("oauth-{}", &code[..8])),
        other => panic!("{other:?}"),
    }
    let b = bundle_value("a".into(), "r".into(), "i".into());
    assert_eq!(b.token_type, "Bearer");
    assert_eq!(b.expires_in, 10_800);
    assert_eq!(b.scope, "openid profile email offline_access");

    // 3. the code is single-use
    assert!(matches!(
        codes.poll(&code, 2 * NANOS),
        Poll::Refused("invalid_grant")
    ));

    // 4. refresh grant
    match token(Some("refresh_token"), None, Some("r")).unwrap() {
        TokenRequest::Refresh(t) => assert_eq!(t, "r"),
        other => panic!("{other:?}"),
    }
    assert!(refreshed(Some(("a".into(), "r".into(), "i".into()))).is_ok());
    assert_eq!(refreshed(None).unwrap_err(), "invalid_grant");

    // 5. legacy device-token -> OAuth migration
    assert_eq!(device_credential(Some("Bearer tk")).unwrap(), "tk");
    assert_eq!(device_credential(Some("Basic tk")).unwrap_err().status(), 401);
    assert_eq!(device_credential(None).unwrap_err().status(), 401);
    let x = device_exchange("a".into(), "r".into(), "i".into());
    assert_eq!(x.access_token, "a");
    assert_eq!(x.token_type, "Bearer");
    assert_eq!(x.scope, SCOPES);

    // 6. unsupported grant
    assert_eq!(
        token(Some("password"), None, None).unwrap_err(),
        "unsupported_grant_type"
    );
    assert_eq!(token(grant, None, None).unwrap_err(), "invalid_request");
    assert_eq!(
        token(Some("refresh_token"), None, None).unwrap_err(),
        "invalid_request"
    );
    assert_eq!(
        token(None, None, None).unwrap_err(),
        "unsupported_grant_type"
    );
}

#[test]
fn codes_wait_for_the_owner() {
    let mut codes = DeviceCodes::new(true);
    let dc = codes.issue("0123456789", "1234-5678", "https://h", 0);
    assert_eq!(dc.device_code, "0123456789");
    let pending = |p: Poll| match p {
        Poll::Refused(why) => why,
        Poll::Granted(_) => panic!("granted"),
    };
    assert_eq!(
        pending(codes.poll("0123456789", NANOS)),
        "authorization_pending"
    );
    // Polling again before the interval has passed, which then is longer.
    assert_eq!(pending(codes.poll("0123456789", 2 * NANOS)), "slow_down");
    assert_eq!(pending(codes.poll("0123456789", 8 * NANOS)), "slow_down");
    assert!(!codes.approve("0000-0000", 9 * NANOS));
    assert!(codes.approve("1234-5678", 9 * NANOS));
    match codes.poll("0123456789", 60 * NANOS) {
        Poll::Granted(device) => assert_eq!(device, "oauth-01234567"),
        other => panic!("{other:?}"),
    }
    assert_eq!(pending(codes.poll("0123456789", 61 * NANOS)), "invalid_grant");

    codes.issue("abcdefghij", "0000-0001", "https://h", 0);
    assert_eq!(
        pending(codes.poll("abcdefghij", 601 * NANOS)),
        "expired_token"
    );
    assert_eq!(user_code(7, 1234), "0007-1234");
    assert_eq!(public_base(None, "local.test"), "https://local.test");
    assert_eq!(
        public_base(Some("https://public.test"), "local.test"),
        "https://public.test"
    );
}

#[test]
fn pending_codes_are_bounded() {
    let mut codes = DeviceCodes::new(true);
    for i in 0..MAX_PENDING {
        codes.issue(&format!("code-{i:08}"), &format!("u{i}"), "b", 0);
    }
    assert!(codes.approve("u0", 0));
    codes.issue("one-more-code", "u", "b", 0);
    assert_eq!(codes.pending.len(), MAX_PENDING);
    // The approved code stayed, the oldest other one made way.
    assert!(matches!(codes.poll("code-00000000", 1), Poll::Granted(_)));
    assert!(matches!(
        codes.poll("code-00000001", 1),
        Poll::Refused("invalid_grant")
    ));
    // Expired codes are forgotten.
    codes.issue("after-a-while", "u", "b", 700 * NANOS);
    assert_eq!(codes.pending.len(), 1);
}

#[test]
fn queue_poll_and_status() {
    let mut queue = MdmQueue::new();
    // nothing queued
    assert!(queue.mdm_next_pending(LOCAL_USER).is_none());

    // enqueue a PIN-length policy, then the device polls and gets it
    let id = queue.admin_enqueue(EnqueueReq {
        name: "minimumPincodeLength".into(),
        key: Some("minimumPincodeLength".into()),
        value: Some("6".into()),
    });
    assert_eq!(id.len(), 36);
    let next = queue.mdm_next_pending(LOCAL_USER).unwrap();
    assert_eq!(next.id, id);
    assert_eq!(next.name, "minimumPincodeLength");
    assert_eq!(next.value.as_deref(), Some("6"));

    // still pending on the next poll (not acknowledged yet)
    assert!(queue.mdm_next_pending(LOCAL_USER).is_some());
    assert!(queue.mdm_next_pending("someone-else").is_none());

    let body = |id: Field, instruction_id: Field, status: Field| StatusBody {
        id,
        instruction_id,
        status,
        detail: Field::Missing,
        details: Field::Text("why".into()),
        extended_status: Field::Missing,
    };
    // a report that names no instruction changes nothing
    queue.post_status(body(
        Field::Other,
        Field::Text(id.clone()),
        Field::Text("completed".into()),
    ));
    assert!(queue.mdm_next_pending(LOCAL_USER).is_some());

    // device reports completion -> cleared
    queue.post_status(body(Field::Missing, Field::Text(id.clone()), Field::Missing));
    assert!(queue.mdm_next_pending(LOCAL_USER).is_none());
    let all = queue.mdm_list(LOCAL_USER);
    let report = all[0].report.as_ref().unwrap();
    assert_eq!(report.status, "received");
    assert_eq!(report.detail.as_deref(), Some("why"));
}

#[test]
fn versions_are_told_by_the_path() {
    assert_eq!(
        SyncVersion::from_path("/sync/v1.5/batch"),
        Some(SyncVersion::V1_5)
    );
    assert_eq!(
        SyncVersion::from_path("/sync/v1_5/batch"),
        Some(SyncVersion::V1_5)
    );
    assert_eq!(SyncVersion::from_path("/a/v1/b"), Some(SyncVersion::V1));
    assert_eq!(SyncVersion::from_path("/sync/v2/root"), Some(SyncVersion::V2));
    assert_eq!(SyncVersion::from_path("/sync/v3/root"), Some(SyncVersion::V3));
    assert_eq!(SyncVersion::from_path("/sync/v4/root"), Some(SyncVersion::V4));
    assert_eq!(SyncVersion::from_path("/sync/v4"), None);
}

#[test]
fn older_protocols_are_answered() {
    assert!(v1_list_docs(at(0)).is_empty());
    let docs = v1_documents(&vec![("h".into(), "n.rm".into())], at(0));
    assert_eq!(docs[0].blob_url_get, "/document-storage/json/2/docs/h");
    assert_eq!(
        docs[0].blob_url_put.as_deref(),
        Some("/document-storage/json/2/upload/h")
    );
    assert_eq!(docs[0].modified_client, "1970-01-01T00:00:00+00:00");
    assert_eq!(docs[0].doc_type, "DocumentType");
    assert_eq!(document_kind("rm"), "CollectionType");
    let up = v1_upload_request(&vec![V1UploadRequest {
        id: "d".into(),
        version: 3,
        doc_type: None,
    }]);
    assert_eq!(up[0].blob_url_put, "/document-storage/json/2/upload/d");
    assert_eq!(up[0].blob_url_put_expires, "2099-12-31T23:59:59Z");
    assert_eq!(up[0].version, 3);
    let st = v1_update_status(&vec![V1StatusUpdate {
        id: "d".into(),
        version: 3,
    }]);
    assert!(st[0].success && st[0].id == "d");
    let ids = vec![
        V1DeleteRequest {
            id: "kept".into(),
            version: 1,
        },
        V1DeleteRequest {
            id: "gone".into(),
            version: 1,
        },
    ];
    let (gone, answers) = v1_delete(&ids, &vec![true, false]);
    assert_eq!(gone, ["gone"]);
    assert_eq!(answers.len(), 2);
    let batch = v15_batch_sync(5, at(0));
    assert!(batch.documents.is_empty() && batch.success && batch.generation == 5);
    let d = v15_documents(&vec![("h".into(), "n".into())], at(0));
    assert_eq!((d[0].id.as_str(), d[0].hash.as_str()), ("h", "h"));
    assert_eq!(v2_get_root("h".into(), 9).schema_version, 2);
    let root = v4_get_root("h".into(), 9);
    assert_eq!(root.schema_version, 4);
    assert_eq!(
        root.features,
        ["crdt", "sharing", "tags", "search", "calendar"]
    );
    assert_eq!(
        v4_file_headers(),
        [
            ("x-rm-schema-version", "4"),
            ("x-rm-features", "crdt,sharing,tags")
        ]
    );
    assert_eq!(stored_name(None, "h"), "h");
    assert_eq!(stored_name(Some("n"), "h"), "n");
}

#[test]
fn command_lines_are_read() {
    let args = |a: &[&str]| -> Vec<String> { a.iter().map(|s| s.to_string()).collect() };
    let c = parse_args(&args(&["srv"])).unwrap();
    assert_eq!(c.bind, "127.0.0.1:8080");
    assert_eq!(c.host, ServerConfig::default().host);
    let c = parse_args(&args(&[
        "srv", "-b", "1.2.3.4:80", "junk", "--key", "k.pem", "-b", "0.0.0.0:1", "--cert",
    ]))
    .unwrap();
    assert_eq!(c.bind, "0.0.0.0:1");
    assert_eq!(c.key_path.as_deref(), Some("k.pem"));
    assert_eq!(c.cert_path, None);
    assert!(parse_args(&args(&["srv", "-s", "/x", "-h", "-b"])).is_none());
    // An option takes whatever stands behind it.
    let c = parse_args(&args(&["srv", "-H", "--help"])).unwrap();
    assert_eq!(c.host, "--help");
    assert!(wants_pairing(&args(&["srv", "--pair"])));
    assert!(!wants_pairing(&args(&["srv"])));
    assert_eq!(init_calendar_manager("/data"), "/data/calendars.db");
    assert_eq!(
        init_readlater_manager("/data/"),
        ("/data/readlater.db".into(), "/data/articles".into())
    );
}

#[test]
fn screenshare_settings_are_read() {
    let mut config = ServerConfig::default();
    assert!(screenshare_listener(None, None, None, &config)
        .unwrap()
        .is_none());
    assert!(screenshare_listener(Some(String::new()), None, None, &config)
        .unwrap()
        .is_none());
    let err = screenshare_listener(Some("0.0.0.0:443".into()), None, None, &config).unwrap_err();
    assert_eq!(err, NEEDS_CERT);
    config.cert_path = Some("c".into());
    config.key_path = Some("k".into());
    let l = screenshare_listener(
        Some("0.0.0.0:443".into()),
        Some("own".into()),
        Some(String::new()),
        &config,
    )
    .unwrap()
    .unwrap();
    assert_eq!((l.cert.as_str(), l.key.as_str()), ("own", "k"));

    let env = |enabled: &str, admin: &str, ports: &str| ViewerEnv {
        enabled: Some(enabled.into()),
        admin_token: Some(admin.into()),
        udp_ports: Some(ports.into()),
        ice: Some(" stun:a , ,turn:b".into()),
        user: None,
    };
    assert!(screenshare_viewer(env("0", "t", "")).unwrap().is_none());
    assert_eq!(
        screenshare_viewer(env("1", " ", "")).unwrap_err(),
        ViewerError::NoAdminToken
    );
    assert_eq!(
        screenshare_viewer(env("on", "t", "50000")).unwrap_err(),
        ViewerError::NoPortRange
    );
    // An end of the range that is no port is told in the words of the integer parser, the lower
    // end first.
    for (range, bad) in [
        ("50000-99999", "99999"),
        ("x- y", "x"),
        ("-1", ""),
        ("1--5", "-5"),
        ("70000-x", "70000"),
        ("9999x-1", "9999x"),
    ] {
        let words = bad.parse::<u16>().unwrap_err().to_string();
        let e = screenshare_viewer(env("on", "t", range)).unwrap_err();
        assert_eq!(e, ViewerError::BadPort(words.clone()), "{range}");
        assert_eq!(e.message(), words);
    }
    let v = screenshare_viewer(env("true", "t", "50000 - 50100"))
        .unwrap()
        .unwrap();
    assert_eq!(v.udp_ports, Some((50000, 50100)));
    assert_eq!(v.ice_servers, ["stun:a", "turn:b"]);
    assert_eq!(v.user_id, PAIRING_USER);
}

#[test]
fn broker_is_set_up_and_publishes_in_order() {
    let c = MqttConfig::default();
    let s = c.broker_settings();
    assert_eq!(s.ws.listen, "127.0.0.1:8083");
    assert_eq!(s.ws.name, "mqtt-ws");
    assert_eq!(s.tcp.unwrap().listen, "127.0.0.1:1883");
    assert_eq!(s.max_connections, 1000);
    assert_eq!(ChangeType::Modified.name(), "modified");
    assert_eq!(
        after(PublishStep::Event, None).unwrap(),
        PublishStep::Notification
    );
    let err = after(
        PublishStep::Event,
        Some(MqttError::PublishError("full".into())),
    )
    .unwrap_err();
    assert_eq!(err.message(), "Failed to publish message: full");
    assert_eq!(MqttError::NotConnected.message(), "Broker not connected");
}

fn wallabag() -> ProviderConfig {
    ProviderConfig::Wallabag {
        instance_url: "https://wb.example".into(),
        client_id: "cid".into(),
        client_secret: Some("SECRET-1".into()),
        access_token: Some("SECRET-2".into()),
        refresh_token: Some("SECRET-3".into()),
        token_expires_at: None,
        username: Some("alice".into()),
        password: Some("SECRET-4".into()),
    }
}

#[test]
fn account_responses_never_include_credentials() {
    let mut m = ReadLaterManager::new();
    let id = add_account(
        &mut m,
        AddAccountRequest {
            name: "wb".into(),
            provider: ReadLaterProvider::Wallabag,
            config: wallabag(),
            sync_settings: None,
        },
    )
    .unwrap();
    assert_eq!(id.len(), 36);

    let list = list_accounts(&m);
    assert_eq!(list.accounts.len(), 1);
    assert!(list.accounts[0].authenticated);
    assert_eq!(list.accounts[0].id, id);
    let one = get_account(&m, &id).unwrap();
    for text in [format!("{list:?}"), format!("{one:?}")] {
        assert!(!text.contains("SECRET"), "{text}");
    }
    assert_eq!(get_account(&m, "none").unwrap_err().status(), 404);

    update_account(
        &mut m,
        &id,
        UpdateAccountRequest {
            name: Some("new".into()),
            enabled: Some(false),
            sync_settings: None,
        },
    )
    .unwrap();
    m.set_last_sync(&id, at(0)).unwrap();
    let one = get_account(&m, &id).unwrap();
    assert_eq!(one.name, "new");
    assert!(!one.enabled);
    assert_eq!(one.last_sync.as_deref(), Some("1970-01-01T00:00:00+00:00"));
    let nothing = UpdateAccountRequest {
        name: None,
        enabled: None,
        sync_settings: None,
    };
    assert!(update_account(&mut m, "none", nothing).is_err());
}

#[test]
fn omnivore_is_rejected_as_discontinued() {
    let mut m = ReadLaterManager::new();
    let err = add_account(
        &mut m,
        AddAccountRequest {
            name: "om".into(),
            provider: ReadLaterProvider::Omnivore,
            config: ProviderConfig::Omnivore {},
            sync_settings: None,
        },
    )
    .unwrap_err();
    assert!(matches!(err, ServerError::BadRequest(ref m) if m.contains("Omnivore")));
    let state = OAuthState {
        provider: ReadLaterProvider::Omnivore,
        request_token: None,
        redirect_uri: "http://cb".into(),
        created_at: at(0),
    };
    let req = StartOAuthRequest {
        provider: ReadLaterProvider::Omnivore,
        redirect_uri: "http://cb".into(),
        config: None,
    };
    let err = auth_url(&req, &state).unwrap_err();
    assert!(matches!(err, ServerError::BadRequest(_)));
}

#[test]
fn provider_logins_start_and_end() {
    let state = |provider| OAuthState {
        provider,
        request_token: Some("rt".into()),
        redirect_uri: "http://cb/x".into(),
        created_at: at(0),
    };
    let req = |provider, config| StartOAuthRequest {
        provider,
        redirect_uri: "http://cb/x".into(),
        config,
    };
    assert_eq!(
        auth_url(
            &req(ReadLaterProvider::Pocket, None),
            &state(ReadLaterProvider::Pocket)
        )
        .unwrap(),
        "https://getpocket.com/auth/authorize?request_token=rt&redirect_uri=http%3A%2F%2Fcb%2Fx"
    );
    assert_eq!(
        auth_url(
            &req(ReadLaterProvider::Wallabag, Some(wallabag())),
            &state(ReadLaterProvider::Wallabag)
        )
        .unwrap(),
        "https://wb.example/oauth/v2/auth?client_id=cid&redirect_uri=http%3A%2F%2Fcb%2Fx&response_type=code"
    );
    assert!(auth_url(
        &req(ReadLaterProvider::Wallabag, None),
        &state(ReadLaterProvider::Wallabag)
    )
    .is_err());
    assert_eq!(
        auth_url(
            &req(ReadLaterProvider::Instapaper, None),
            &state(ReadLaterProvider::Instapaper)
        )
        .unwrap(),
        "xauth://instapaper"
    );
    match flow_of(None) {
        Err(ServerError::Internal(m)) => assert_eq!(m, "Invalid OAuth state"),
        other => panic!("{other:?}"),
    }
    let mut m = ReadLaterManager::new();
    let id = complete_oauth(
        &mut m,
        "mine".into(),
        &state(ReadLaterProvider::Wallabag),
        wallabag(),
    )
    .unwrap();
    assert_eq!(id.len(), 36);
    assert_eq!(m.get_account(&id).unwrap().sync_settings.max_articles, 50);
}

#[test]
fn articles_are_changed_on_request() {
    let mut m = ReadLaterManager::new();
    let mut article = remarkable_server::readlater::rows::article_of(
        remarkable_server::readlater::rows::ArticleRow {
            id: "a1".into(),
            provider: "pocket".into(),
            provider_id: "p1".into(),
            url: "https://ex.com".into(),
            title: "T".into(),
            excerpt: None,
            author: None,
            word_count: None,
            reading_time_minutes: None,
            tags: None,
            status: "unread".into(),
            favorite: 0,
            added_at: "2025-01-01T00:00:00+00:00".into(),
            updated_at: "2025-01-01T00:00:00+00:00".into(),
            read_at: None,
            image_url: None,
            document_id: None,
            synced_to_device: 0,
            last_sync: None,
        },
        at(0),
    )
    .unwrap();
    article.content = Some("body".into());
    m.save_article(&article);
    let req = UpdateArticleRequest {
        status: Some(ReadStatus::Read),
        favorite: Some(true),
        tags: Some(vec!["x".into()]),
        document_id: Some("doc".into()),
        synced_to_device: Some(true),
    };
    let changed = update_article(&mut m, "a1", req).unwrap();
    assert_eq!(changed.status, ReadStatus::Read);
    assert!(changed.read_at.is_some());
    assert!(changed.last_sync.is_some());
    assert!(changed.updated_at.seconds > 1_735_689_600);
    assert_eq!(changed.tags, ["x"]);
    let stored = get_article(&m, "a1").unwrap();
    assert_eq!(stored.document_id.as_deref(), Some("doc"));
    assert!(stored.favorite);
    assert_eq!(get_article(&m, "none").unwrap_err().status(), 404);
    let page = list_articles(&m, &ArticleQuery::default());
    assert_eq!(page.total, 1);
}

#[test]
fn syncs_are_summed_up() {
    let result = |fetched, synced, errors: usize| SyncResult {
        account_id: "a".into(),
        provider: ReadLaterProvider::Pocket,
        articles_fetched: fetched,
        articles_synced: synced,
        articles_converted: 0,
        articles_already_synced: 0,
        read_status_synced: 0,
        errors: vec!["e".to_string(); errors],
        duration_ms: 0,
        completed_at: at(0),
    };
    let r = SyncAllResponse::of(
        vec![result(3, 1, 0), result(4, 2, 2)],
        vec!["busy".to_string()],
    );
    assert_eq!((r.total_fetched, r.total_synced, r.total_errors), (7, 3, 2));
    assert_eq!(r.already_running, ["busy"]);
}

#[test]
fn read_later_errors_become_refusals() {
    let status = |e: ReadLaterError| server_error(e).status();
    assert_eq!(status(ReadLaterError::ProviderNotFound("x".into())), 404);
    assert_eq!(status(ReadLaterError::ArticleNotFound("x".into())), 404);
    assert_eq!(status(ReadLaterError::AuthRequired("x".into())), 401);
    assert_eq!(status(ReadLaterError::Discontinued("x".into())), 400);
    assert_eq!(status(ReadLaterError::Io("x".into())), 500);
    match server_error(ReadLaterError::RateLimited(7)) {
        ServerError::Internal(m) => assert_eq!(m, "Rate limited, retry after 7 seconds"),
        other => panic!("{other:?}"),
    }
    match server_error(ReadLaterError::Network("down".into())) {
        ServerError::Internal(m) => assert_eq!(m, "Network: down"),
        other => panic!("{other:?}"),
    }
}

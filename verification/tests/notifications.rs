//! Notifications, and the sessions over which they are pushed.

use remarkable_server::mqtt_ws::{
    build_connack, build_pingresp, build_publish, build_suback, connect_token, is_concrete,
    is_enabled, notification_publishes, packet_body, parse_mqtt_string, parse_remaining_length,
    push_remaining_length, ConnectError, MqttSession, NotificationMessage, PacketType, Reaction,
    SERVER_USER, SUBACK_FAILURE,
};
use remarkable_server::notifications::{
    delivers_to, ClientMessage, NotificationSession, SocketAction, SocketEvent, WsMessage,
};

#[test]
fn screenshare_messages_reach_only_their_target() {
    let direct = WsMessage::screenshare_message("u", "tablet", "r", Some("viewer-a"), "e30=");
    assert!(delivers_to(&direct, "u", Some("viewer-a")));
    assert!(!delivers_to(&direct, "u", Some("viewer-b")));
    assert!(!delivers_to(&direct, "other-user", Some("viewer-a")));
    assert!(
        delivers_to(&direct, "u", None),
        "unknown device keeps the old behaviour"
    );
    let broadcast = WsMessage::screenshare_message("u", "viewer-a", "r", None, "e30=");
    assert!(delivers_to(&broadcast, "u", Some("tablet")));
    let sync = WsMessage::sync_complete(1, "local-server", "local-user");
    assert!(delivers_to(&sync, "someone-else", Some("x")));
}

fn connect() -> Vec<u8> {
    // CONNECT, MQTT 3.1.1, clean session, keepalive 60, client id "c"
    vec![
        0x10, 13, 0, 4, b'M', b'Q', b'T', b'T', 4, 2, 0, 60, 0, 1, b'c',
    ]
}

/// CONNECT with username "dev" and `password`.
fn connect_with_password(password: &str) -> Vec<u8> {
    let mut p = vec![
        0x10,
        (10 + 3 + 5 + 2 + password.len()) as u8,
        0,
        4,
        b'M',
        b'Q',
        b'T',
        b'T',
        4,
        0xC2,
        0,
        60,
        0,
        1,
        b'c',
        0,
        3,
        b'd',
        b'e',
        b'v',
        0,
        password.len() as u8,
    ];
    p.extend_from_slice(password.as_bytes());
    p
}

fn subscribe(topic: &str) -> Vec<u8> {
    let mut p = vec![
        0x82,
        (2 + 2 + topic.len() + 1) as u8,
        0,
        1,
        0,
        topic.len() as u8,
    ];
    p.extend_from_slice(topic.as_bytes());
    p.push(0);
    p
}

/// (topic, payload) of a QoS 0 PUBLISH.
fn parse_publish(p: &[u8]) -> (String, Vec<u8>) {
    assert_eq!(p[0], 0x30, "QoS 0 PUBLISH");
    let (_, n) = parse_remaining_length(&p[1..]).unwrap();
    let (topic, tl) = parse_mqtt_string(&p[1 + n..]).unwrap();
    (topic.to_string(), p[1 + n + tl..].to_vec())
}

/// A session that accepted a CONNECT of `user`.
fn connected(user: &str) -> MqttSession {
    let mut s = MqttSession::new();
    assert!(matches!(
        s.on_frame(&connect()),
        Reaction::Authenticate(None)
    ));
    match s.on_authenticated(Some(user.to_string())) {
        Reaction::Reply(p) => assert_eq!(p, build_connack(false, 0)),
        _ => panic!("accepted"),
    }
    s
}

fn subscribed(s: &mut MqttSession, topic: &str) -> (Vec<u8>, Vec<String>) {
    match s.on_frame(&subscribe(topic)) {
        Reaction::Subscribed { suback, fresh } => (suback, fresh),
        _ => panic!("a SUBSCRIBE is acknowledged"),
    }
}

#[test]
fn sync_complete_is_published_to_subscribed_topic() {
    let mut s = connected("u1");
    let (suback, fresh) = subscribed(&mut s, "user/u1/sync");
    assert_eq!(suback[0], 0x90);
    assert_eq!(fresh, vec!["user/u1/sync"], "catch-up after SUBACK");
    let (suback, fresh) = subscribed(&mut s, "user/+/wild");
    assert_eq!(
        suback,
        build_suback(1, &[SUBACK_FAILURE]),
        "a wildcard filter is refused, not acknowledged and never served"
    );
    assert!(fresh.is_empty());
    let (suback, fresh) = subscribed(&mut s, "user/u1/sync");
    assert_eq!(suback, build_suback(1, &[0]));
    assert!(
        fresh.is_empty(),
        "wildcard or repeated subscription gets no catch-up"
    );

    let msg = WsMessage::sync_complete(7, "local-server", "u1");
    assert_eq!(msg.message.attributes.event, "SyncComplete");
    let packets = s.on_notification(&msg, b"{}");
    assert_eq!(packets.len(), 1);
    assert_eq!(
        parse_publish(&packets[0]),
        ("user/u1/sync".to_string(), b"{}".to_vec())
    );

    // Screenshare traffic is per account; this endpoint has no identity.
    let room = WsMessage::screenshare_room_created("u1", "tablet", "r");
    assert!(s.on_notification(&room, b"{}").is_empty());
    let msg = WsMessage::sync_complete(8, "local-server", "u1");
    assert_eq!(s.on_notification(&msg, b"{}").len(), 1);
}

#[test]
fn nothing_is_pushed_before_connect() {
    let mut s = MqttSession::new();
    let msg = WsMessage::sync_complete(1, "local-server", "u1");
    assert!(s.on_notification(&msg, b"{}").is_empty());
    assert!(matches!(s.on_frame(&connect()), Reaction::Authenticate(_)));
    match s.on_authenticated(Some("u1".into())) {
        Reaction::Reply(p) => {
            assert_eq!(p, build_connack(false, 0), "first packet must be CONNACK")
        }
        _ => panic!("accepted"),
    }
}

#[test]
fn the_session_goes_on_without_notifications() {
    let mut s = connected("u1");
    subscribed(&mut s, "t");
    s.on_notifications_ended();
    match s.on_frame(&[0xC0, 0x00]) {
        Reaction::Reply(p) => assert_eq!(p, build_pingresp()),
        _ => panic!("session survives a closed broadcast channel"),
    }
    assert!(matches!(s.on_frame(&[0xE0, 0x00]), Reaction::End));
}

#[test]
fn publish_topics_are_deduplicated_and_concrete() {
    let subs = vec![
        "a".to_string(),
        "a".to_string(),
        "#".to_string(),
        "b/+".to_string(),
        String::new(),
    ];
    let msg = WsMessage::sync_complete(1, "local-server", "u");
    let packets = notification_publishes(&msg, b"{}", &subs, "u");
    assert_eq!(packets.len(), 1);
    assert_eq!(parse_publish(&packets[0]).0, "a");
    assert!(
        notification_publishes(&msg, b"{}", &subs, "someone-else").is_empty(),
        "another user's event"
    );
    assert_eq!(
        notification_publishes(
            &WsMessage::sync_complete(1, "local-server", SERVER_USER),
            b"{}",
            &subs,
            "u"
        )
        .len(),
        1,
        "server-wide event"
    );
}

#[test]
fn remaining_length_round_trips_and_packet_body_bounds_the_frame() {
    // Every encoding-width boundary, up to the 4-byte maximum.
    for len in [
        0,
        127,
        128,
        16_383,
        16_384,
        2_097_151,
        2_097_152,
        268_435_455,
    ] {
        let mut encoded = Vec::new();
        push_remaining_length(&mut encoded, len);
        assert_eq!(
            parse_remaining_length(&encoded),
            Some((len, encoded.len())),
            "{len}"
        );
    }
    assert_eq!(
        parse_remaining_length(&[0xFF, 0xFF, 0xFF, 0xFF, 0x01]),
        None,
        "5 bytes"
    );

    assert_eq!(packet_body(&[0x10, 2, 7, 8]), Some(&[7, 8][..]));
    assert_eq!(
        packet_body(&[0x10, 1, 7, 8]),
        None,
        "one packet per frame: bytes past the packet are refused"
    );
    assert_eq!(packet_body(&[0x10, 3, 7, 8]), None, "truncated");
    assert_eq!(packet_body(&[0x10, 0x80]), None, "unterminated length");
    assert_eq!(packet_body(&[0x10]), None, "no length");
    assert_eq!(packet_body(&[]), None);

    // A SUBACK for more than 125 filters needs a two-byte remaining length.
    let suback = build_suback(7, &[0; 200]);
    assert_eq!(&suback[..5], &[0x90, 0xCA, 0x01, 0, 7]);
    assert_eq!(packet_body(&suback).map(<[u8]>::len), Some(202));
    assert_eq!(build_suback(1, &[SUBACK_FAILURE]), [0x90, 3, 0, 1, 0x80]);
}

#[test]
fn remaining_length_round_trips() {
    for len in (0usize..=268_435_455).step_by(999_983) {
        let mut encoded = Vec::new();
        push_remaining_length(&mut encoded, len);
        assert_eq!(parse_remaining_length(&encoded), Some((len, encoded.len())));
    }
}

#[test]
fn packet_parsers_never_panic() {
    // Frames of a simple generator, of every length up to 64.
    let mut seed: u32 = 1;
    for len in 0..64usize {
        for _ in 0..64 {
            let frame: Vec<u8> = (0..len)
                .map(|_| {
                    seed = seed.wrapping_mul(1_664_525).wrapping_add(1_013_904_223);
                    (seed >> 24) as u8
                })
                .collect();
            if let Some(body) = packet_body(&frame) {
                assert!(body.len() < frame.len());
            }
            let _ = connect_token(&frame);
        }
    }
}

#[test]
fn anything_but_a_well_formed_connect_first_closes_without_connack() {
    let cases = [
        (
            "truncated CONNECT",
            vec![0x10, 13, 0, 4, b'M', b'Q', b'T', b'T', 4, 2, 0, 60],
        ),
        (
            "5-byte remaining length",
            vec![0x10, 0xFF, 0xFF, 0xFF, 0xFF, 0x01],
        ),
        ("CONNECT without a remaining length", vec![0x10]),
        ("SUBSCRIBE first", vec![0x82, 6, 0, 1, 0, 1, b't', 0]),
        ("PINGREQ first", vec![0xC0, 0x00]),
        ("reserved packet type first", vec![0xF0, 0x00]),
        ("empty frame first", vec![]),
        // Well framed, but not a CONNECT body: authentication (which a header token
        // would pass whatever the CONNECT says) is never reached.
        ("CONNECT with an empty body", vec![0x10, 0]),
        (
            "CONNECT cut inside its protocol name",
            vec![0x10, 3, 0, 9, b'M'],
        ),
        (
            "CONNECT and a second packet in one frame",
            vec![
                0x10, 13, 0, 4, b'M', b'Q', b'T', b'T', 4, 2, 0, 60, 0, 1, b'c', 0xC0, 0,
            ],
        ),
    ];
    for (case, frame) in cases {
        let mut s = MqttSession::new();
        assert!(matches!(s.on_frame(&frame), Reaction::End), "{case}");
        assert!(!s.connected, "{case}");
    }

    // Another protocol level is a well-formed CONNECT this server doesn't speak.
    let mut s = MqttSession::new();
    match s.on_frame(&[
        0x10, 13, 0, 4, b'M', b'Q', b'T', b'T', 5, 2, 0, 60, 0, 1, b'c',
    ]) {
        Reaction::Refuse(p) => {
            assert_eq!(p, build_connack(false, 1), "unacceptable protocol version")
        }
        _ => panic!("MQTT 5 CONNECT"),
    }
}

#[test]
fn connect_must_arrive_within_the_deadline() {
    let s = MqttSession::new();
    assert!(s.on_deadline(), "an idle socket is closed");
    let s = connected("u1");
    assert!(!s.on_deadline(), "no deadline once connected");
}

#[test]
fn connect_token_reads_password_else_username() {
    let body = |b: Vec<u8>| b[2..].to_vec();
    let token = |b: &[u8]| connect_token(b).map(|t| t.unwrap_or_else(|| "<none>".into()));
    assert_eq!(token(&body(connect_with_password("tok"))), Ok("tok".into()));
    assert_eq!(
        token(&body(connect_with_password(""))),
        Ok("dev".into()),
        "empty password falls back to username"
    );
    assert_eq!(connect_token(&body(connect())), Ok(None), "no credentials");
    // Will flag set: will topic and message come before the username/password.
    let will = [
        0, 4, b'M', b'Q', b'T', b'T', 4, 0xC6, 0, 60, 0, 1, b'c', 0, 1, b'w', 0, 2, 1, 2, 0, 1,
        b'u', 0, 2, b'p', b'w',
    ];
    assert_eq!(token(&will), Ok("pw".into()));
    let mqtt31 = [
        0, 6, b'M', b'Q', b'I', b's', b'd', b'p', 3, 0xC2, 0, 60, 0, 1, b'c', 0, 1, b'u', 0, 1,
        b't',
    ];
    assert_eq!(token(&mqtt31), Ok("t".into()), "MQTT 3.1");

    // Each of these is refused before any token is looked at.
    let with = |i: usize, b: u8| {
        let mut w = will.to_vec();
        w[i] = b;
        w
    };
    let mut trailing = will.to_vec();
    trailing.push(0);
    let malformed: [(&str, Vec<u8>); 9] = [
        ("empty", vec![]),
        ("truncated", will[..will.len() - 1].to_vec()),
        ("trailing byte", trailing),
        ("protocol name", with(2, b'X')),
        ("reserved flag bit", with(7, 0xC7)),
        ("password without username", with(7, 0x46)),
        ("will QoS without a will", with(7, 0xCA)),
        ("client id not UTF-8", with(12, 0xFF)),
        ("keep alive missing", will[..8].to_vec()),
    ];
    for (case, b) in malformed {
        assert_eq!(connect_token(&b), Err(ConnectError::Malformed), "{case}");
    }
    assert_eq!(
        connect_token(&with(6, 5)),
        Err(ConnectError::UnsupportedLevel),
        "MQTT 5"
    );
}

#[test]
fn unauthenticated_connect_is_refused_and_gets_nothing() {
    let authenticate = |t: Option<&str>| {
        if t == Some("good") {
            Some("u1".to_string())
        } else {
            None
        }
    };
    for frame in [connect(), connect_with_password("bad")] {
        let mut s = MqttSession::new();
        let token = match s.on_frame(&frame) {
            Reaction::Authenticate(t) => t,
            _ => panic!("a CONNECT is authenticated"),
        };
        match s.on_authenticated(authenticate(token.as_deref())) {
            Reaction::Refuse(p) => assert_eq!(p, build_connack(false, 5), "not authorized"),
            _ => panic!("refused"),
        }
        let msg = WsMessage::sync_complete(1, "local-server", "u1");
        assert!(
            s.on_notification(&msg, b"{}").is_empty(),
            "session closed without publishing"
        );
    }
}

#[test]
fn authenticated_client_only_gets_its_users_notifications() {
    let mut s = MqttSession::new();
    let token = match s.on_frame(&connect_with_password("good")) {
        Reaction::Authenticate(t) => t,
        _ => panic!("a CONNECT is authenticated"),
    };
    assert_eq!(token.as_deref(), Some("good"));
    match s.on_authenticated(Some("u1".into())) {
        Reaction::Reply(p) => assert_eq!(p, build_connack(false, 0)),
        _ => panic!("accepted"),
    }
    let (suback, fresh) = subscribed(&mut s, "t");
    assert_eq!(suback[0], 0x90);
    assert_eq!(fresh, vec!["t"]);
    assert_eq!(s.user_id, "u1", "catch-up carries the session's user");

    let other = WsMessage::sync_complete(5, "dev", "u2");
    assert!(
        s.on_notification(&other, b"{}").is_empty(),
        "u2's event was skipped"
    );
    let own = WsMessage::sync_complete(6, "dev", "u1");
    assert_eq!(own.message.attributes.event, "SyncComplete");
    assert_eq!(own.message.attributes.auth0_user_id, "u1");
    assert_eq!(s.on_notification(&own, b"{}").len(), 1);
    match s.on_frame(&[0xC0, 0x00]) {
        Reaction::Reply(p) => assert_eq!(p, build_pingresp(), "nothing else was queued"),
        _ => panic!("PINGREQ is answered"),
    }
}

#[test]
fn packets_are_laid_out_as_mqtt_says() {
    assert_eq!(build_connack(true, 0), [0x20, 2, 1, 0]);
    assert_eq!(build_pingresp(), [0xD0, 0]);
    assert_eq!(
        build_publish("ab", b"xyz", 0, None),
        [0x30, 7, 0, 2, b'a', b'b', b'x', b'y', b'z']
    );
    assert_eq!(
        build_publish("a", b"x", 1, Some(258)),
        [0x32, 6, 0, 1, b'a', 1, 2, b'x']
    );
    assert!(is_concrete("a/b"));
    assert!(!is_concrete("a/+"));
    assert!(!is_concrete(""));
    assert_eq!(PacketType::try_from(1), Ok(PacketType::Connect));
    assert_eq!(PacketType::try_from(14), Ok(PacketType::Disconnect));
    assert_eq!(PacketType::try_from(15), Err(()));
}

#[test]
fn the_endpoint_can_be_switched() {
    for on in ["1", "true", "on"] {
        assert!(is_enabled(Some(on)));
    }
    assert!(!is_enabled(Some("yes")));
    assert!(!is_enabled(None));
}

#[test]
fn sync_complete_message_names_generation_and_source() {
    let m = NotificationMessage::sync_complete(7, Some("tablet".into()));
    assert_eq!(m.message_type, "sync-complete");
    assert_eq!(m.source_device_id.as_deref(), Some("tablet"));
    assert_eq!(m.generation, Some(7));
}

#[test]
fn approval_and_denial_are_told() {
    let m = WsMessage::passcode_reset_approved("u", "tablet", "Desk", "req");
    let a = &m.message.attributes;
    assert_eq!(a.event, "PasscodeResetApproved");
    assert_eq!(a.auth0_user_id, "u");
    assert_eq!(a.device_id.as_deref(), Some("tablet"));
    assert_eq!(a.device_name.as_deref(), Some("Desk"));
    assert_eq!(a.id.as_deref(), Some("req"));
    assert_eq!(a.version.as_deref(), Some("1"));
    // base64 of the event's name
    assert_eq!(
        m.message.data.as_deref(),
        Some("UGFzc2NvZGVSZXNldEFwcHJvdmVk")
    );
    assert_eq!(m.message.message_id.as_ref().map(|i| i.len()), Some(36));
    let d = WsMessage::passcode_reset_denied("u", "req");
    assert_eq!(d.message.attributes.event, "PasscodeResetDenied");
    assert_eq!(d.message.attributes.id.as_deref(), Some("req"));
    assert_eq!(d.message.data, None);
}

#[test]
fn messages_are_stamped_with_the_time() {
    let m = WsMessage::event("DocAdded", "x", "u1");
    let at = m.message.publish_time.as_deref().unwrap();
    // nine digits of a second and a Z
    assert_eq!(at.len(), 30);
    assert!(at.ends_with('Z'));
    assert!(chrono::DateTime::parse_from_rfc3339(at).is_ok());
    assert_eq!(m.message.publish_time, m.message.publish_time_2);
}

#[test]
fn sockets_forward_catch_up_and_close() {
    let (mut s, first) = NotificationSession::open("u".into(), Some("viewer-a".into()));
    assert_eq!(first, SocketAction::SendSyncComplete);
    let own = WsMessage::screenshare_message("u", "tablet", "r", Some("viewer-a"), "e30=");
    assert_eq!(
        s.on_event(&SocketEvent::Broadcast(own)),
        SocketAction::Forward
    );
    let other = WsMessage::screenshare_message("u", "tablet", "r", Some("viewer-b"), "e30=");
    assert_eq!(
        s.on_event(&SocketEvent::Broadcast(other)),
        SocketAction::Ignore
    );
    assert_eq!(
        s.on_event(&SocketEvent::Lagged),
        SocketAction::SendSyncComplete,
        "lag is replaced by a catch-up SyncComplete"
    );
    let ask = ClientMessage {
        message_type: Some("sync-request".into()),
    };
    assert_eq!(
        s.on_event(&SocketEvent::Client(ask)),
        SocketAction::BroadcastSyncComplete
    );
    assert_eq!(s.on_event(&SocketEvent::Other), SocketAction::Ignore);
    assert_eq!(s.on_event(&SocketEvent::Revoked), SocketAction::CloseRevoked);
    let sync = WsMessage::sync_complete(1, "local-server", "u");
    assert_eq!(
        s.on_event(&SocketEvent::Broadcast(sync)),
        SocketAction::Ignore,
        "nothing is forwarded to a revoked device"
    );
    assert_eq!(s.on_event(&SocketEvent::Closed), SocketAction::End);
}

#[test]
fn publishes_of_every_quality_read_back() {
    for (qos, id) in [(0, None), (1, Some(0x0102)), (2, Some(0xFFFE))] {
        let p = build_publish("a/b", b"xyz", qos, id);
        assert_eq!(p[0], 0x30 + 2 * qos);
        let body = packet_body(&p).unwrap();
        let (topic, used) = parse_mqtt_string(body).unwrap();
        assert_eq!(topic, "a/b");
        let rest = match id {
            None => &body[used..],
            Some(id) => {
                assert_eq!(u16::from_be_bytes([body[used], body[used + 1]]), id);
                &body[used + 2..]
            }
        };
        assert_eq!(rest, b"xyz");
    }
}

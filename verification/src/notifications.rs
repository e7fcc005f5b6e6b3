//! Notifications that are pushed to tablets and clients over `/notifications/ws/json/1`, and the
//! decisions of a client's session there.

use vstd::prelude::*;
use vstd::string::*;
use vstd::utf8::*;

use crate::clock::{now, to_rfc3339_nanos, Timestamp};
use crate::codec::{random_uuid, to_base64};
use crate::text::{decimal_u128, owned, same, starts_with};

verus! {

/// A notification, as it goes out.
#[derive(Debug, Clone)]
pub struct WsMessage {
    pub message: NotificationMessage,
    pub subscription: Option<String>,
}

/// The inner part of a notification.
#[derive(Debug, Clone)]
pub struct NotificationMessage {
    pub attributes: NotificationAttributes,
    pub data: Option<String>,
    pub message_id: Option<String>,
    pub message_id_2: Option<String>,
    pub message_id_3: Option<String>,
    pub publish_time: Option<String>,
    pub publish_time_2: Option<String>,
}

/// What a notification is about.
#[derive(Debug, Clone)]
pub struct NotificationAttributes {
    pub auth0_user_id: String,
    pub event: String,
    pub source_device_id: String,
    pub device_id: Option<String>,
    pub device_name: Option<String>,
    pub source_device_desc: Option<String>,
    pub id: Option<String>,
    pub parent: Option<String>,
    pub doc_type: Option<String>,
    pub version: Option<String>,
    pub visible_name: Option<String>,
    /// Screenshare room id (`ScreenshareRoomCreated`).
    pub room_id: Option<String>,
    /// Screenshare direct-message target client id.
    pub target_client_id: Option<String>,
}

/// A message received from a device.
#[derive(Debug, Clone)]
pub struct ClientMessage {
    pub message_type: Option<String>,
}

/// [`NotificationAttributes`] with its texts as characters.
pub struct AttributesView {
    pub auth0_user_id: Seq<char>,
    pub event: Seq<char>,
    pub source_device_id: Seq<char>,
    pub device_id: Option<Seq<char>>,
    pub device_name: Option<Seq<char>>,
    pub source_device_desc: Option<Seq<char>>,
    pub id: Option<Seq<char>>,
    pub parent: Option<Seq<char>>,
    pub doc_type: Option<Seq<char>>,
    pub version: Option<Seq<char>>,
    pub visible_name: Option<Seq<char>>,
    pub room_id: Option<Seq<char>>,
    pub target_client_id: Option<Seq<char>>,
}

/// [`WsMessage`] with its texts as characters.
pub struct WsMessageView {
    pub attributes: AttributesView,
    pub data: Option<Seq<char>>,
    pub message_id: Option<Seq<char>>,
    pub message_id_2: Option<Seq<char>>,
    pub message_id_3: Option<Seq<char>>,
    pub publish_time: Option<Seq<char>>,
    pub publish_time_2: Option<Seq<char>>,
    pub subscription: Option<Seq<char>>,
}

impl View for NotificationAttributes {
    type V = AttributesView;

    open spec fn view(&self) -> AttributesView {
        AttributesView {
            auth0_user_id: self.auth0_user_id@,
            event: self.event@,
            source_device_id: self.source_device_id@,
            device_id: crate::text::text_of(self.device_id),
            device_name: crate::text::text_of(self.device_name),
            source_device_desc: crate::text::text_of(self.source_device_desc),
            id: crate::text::text_of(self.id),
            parent: crate::text::text_of(self.parent),
            doc_type: crate::text::text_of(self.doc_type),
            version: crate::text::text_of(self.version),
            visible_name: crate::text::text_of(self.visible_name),
            room_id: crate::text::text_of(self.room_id),
            target_client_id: crate::text::text_of(self.target_client_id),
        }
    }
}

impl View for WsMessage {
    type V = WsMessageView;

    open spec fn view(&self) -> WsMessageView {
        WsMessageView {
            attributes: self.message.attributes@,
            data: crate::text::text_of(self.message.data),
            message_id: crate::text::text_of(self.message.message_id),
            message_id_2: crate::text::text_of(self.message.message_id_2),
            message_id_3: crate::text::text_of(self.message.message_id_3),
            publish_time: crate::text::text_of(self.message.publish_time),
            publish_time_2: crate::text::text_of(self.message.publish_time_2),
            subscription: crate::text::text_of(self.subscription),
        }
    }
}

/// The attributes of an event that says no more than who caused it and for whom.
pub open spec fn bare_event(event: Seq<char>, source: Seq<char>, user: Seq<char>) -> AttributesView {
    AttributesView {
        auth0_user_id: user,
        event,
        source_device_id: source,
        device_id: None,
        device_name: None,
        source_device_desc: Some("local-server"@),
        id: None,
        parent: None,
        doc_type: None,
        version: None,
        visible_name: None,
        room_id: None,
        target_client_id: None,
    }
}

/// What every message made here has besides its attributes and data: two identifiers, a time
/// stamp as the third, the time of publication twice, and a subscription.
pub open spec fn stamped(m: WsMessageView) -> bool {
    &&& m.message_id is Some
    &&& m.message_id_2 is Some
    &&& m.message_id_3 is Some
    &&& m.publish_time is Some
    &&& m.publish_time_2 == m.publish_time
    &&& m.subscription == Some("dummy-subscription"@)
}

/// The stamp of a message in `m`, as it was made by [`WsMessage::sync_complete_at`].
pub open spec fn stamp_at(
    m: WsMessageView,
    id: Seq<char>,
    id_2: Seq<char>,
    stamp: Timestamp,
    published: Timestamp,
) -> bool {
    &&& m.message_id == Some(id)
    &&& m.message_id_2 == Some(id_2)
    &&& m.message_id_3 == Some(crate::text::decimal(stamp.instant() as nat))
    &&& m.publish_time == Some(crate::clock::rfc3339_nanos(published.seconds, published.nanos))
    &&& m.publish_time_2 == m.publish_time
    &&& m.subscription == Some("dummy-subscription"@)
}

impl WsMessage {
    /// A `SyncComplete` with the given identifiers, time stamp and time of publication.
    pub fn sync_complete_at(
        id: String,
        id_2: String,
        stamp: Timestamp,
        published: Timestamp,
        source_device_id: &str,
        auth0_user_id: &str,
    ) -> (r: Self)
        requires
            stamp.valid(),
            stamp.seconds >= 0,
            published.valid(),
        ensures
            r@.attributes == bare_event("SyncComplete"@, source_device_id@, auth0_user_id@),
            r@.data is None,
            stamp_at(r@, id@, id_2@, stamp, published),
    {
        let nanos: u128 = stamp.seconds as u128 * 1_000_000_000 + stamp.nanos as u128;
        let publish_time = to_rfc3339_nanos(published);
        WsMessage {
            message: NotificationMessage {
                attributes: NotificationAttributes {
                    auth0_user_id: auth0_user_id.to_owned(),
                    event: "SyncComplete".to_owned(),
                    source_device_id: source_device_id.to_owned(),
                    source_device_desc: Some("local-server".to_owned()),
                    device_id: None,
                    device_name: None,
                    room_id: None,
                    target_client_id: None,
                    id: None,
                    parent: None,
                    doc_type: None,
                    version: None,
                    visible_name: None,
                },
                data: None,
                message_id: Some(id),
                message_id_2: Some(id_2),
                message_id_3: Some(decimal_u128(nanos)),
                publish_time: Some(publish_time.clone()),
                publish_time_2: Some(publish_time),
            },
            subscription: Some("dummy-subscription".to_owned()),
        }
    }

    /// The sync tree has changed: its generation is now `_generation`.
    pub fn sync_complete(
        _generation: u64,
        source_device_id: &str,
        auth0_user_id: &str,
    ) -> (r: Self)
        ensures
            r@.attributes == bare_event("SyncComplete"@, source_device_id@, auth0_user_id@),
            r@.data is None,
            stamped(r@),
    {
        let stamp = now();
        let published = now();
        WsMessage::sync_complete_at(
            random_uuid(),
            random_uuid(),
            stamp,
            published,
            source_device_id,
            auth0_user_id,
        )
    }

    /// Any event, attributed to `source_device_id` (the tablet drops notifications whose source
    /// is its own id, so events it caused should carry its id).
    pub fn event(event: &str, source_device_id: &str, auth0_user_id: &str) -> (r: Self)
        ensures
            r@.attributes == bare_event(event@, source_device_id@, auth0_user_id@),
            r@.data is None,
            stamped(r@),
    {
        let mut msg = WsMessage::sync_complete(0, source_device_id, auth0_user_id);
        msg.message.attributes.event = event.to_owned();
        msg
    }

    /// Screenshare: a room was created; other clients should join. `source_device_id` is the
    /// creator's device, so the creator's own client drops it.
    pub fn screenshare_room_created(
        auth0_user_id: &str,
        source_device_id: &str,
        room_id: &str,
    ) -> (r: Self)
        ensures
            r@.attributes == (AttributesView {
                room_id: Some(room_id@),
                ..bare_event("ScreenshareRoomCreated"@, source_device_id@, auth0_user_id@)
            }),
            r@.data is None,
            stamped(r@),
    {
        let mut msg = WsMessage::event("ScreenshareRoomCreated", source_device_id, auth0_user_id);
        msg.message.attributes.room_id = Some(room_id.to_owned());
        msg
    }

    /// Screenshare: relay a signalling message to the user's other clients. `data_b64` is base64
    /// of the inner JSON object the sender posted.
    pub fn screenshare_message(
        auth0_user_id: &str,
        source_device_id: &str,
        room_id: &str,
        target_client_id: Option<&str>,
        data_b64: &str,
    ) -> (r: Self)
        ensures
            r@.attributes == (AttributesView {
                room_id: Some(room_id@),
                target_client_id: crate::text::text_of_str(target_client_id),
                ..bare_event("ScreenshareMessage"@, source_device_id@, auth0_user_id@)
            }),
            r@.data == Some(data_b64@),
            stamped(r@),
    {
        let mut msg = WsMessage::event("ScreenshareMessage", source_device_id, auth0_user_id);
        msg.message.attributes.room_id = Some(room_id.to_owned());
        msg.message.attributes.target_client_id = owned(target_client_id);
        msg.message.data = Some(data_b64.to_owned());
        msg
    }

    /// Tell the device its passcode reset request was denied.
    pub fn passcode_reset_denied(auth0_user_id: &str, request_id: &str) -> (r: Self)
        ensures
            r@.attributes == (AttributesView {
                id: Some(request_id@),
                ..bare_event("PasscodeResetDenied"@, "local-server"@, auth0_user_id@)
            }),
            r@.data is None,
            stamped(r@),
    {
        let mut msg = WsMessage::event("PasscodeResetDenied", "local-server", auth0_user_id);
        msg.message.attributes.id = Some(request_id.to_owned());
        msg
    }

    /// Tell the device its passcode reset request was approved.
    pub fn passcode_reset_approved(
        auth0_user_id: &str,
        device_id: &str,
        device_name: &str,
        request_id: &str,
    ) -> (r: Self)
        ensures
            r@.attributes == (AttributesView {
                device_id: Some(device_id@),
                device_name: Some(device_name@),
                id: Some(request_id@),
                version: Some("1"@),
                ..bare_event("PasscodeResetApproved"@, "local-server"@, auth0_user_id@)
            }),
            r@.data == Some(
                crate::codec::base64_standard(encode_utf8("PasscodeResetApproved"@)),
            ),
            stamped(r@),
    {
        let mut msg = WsMessage::event("PasscodeResetApproved", "local-server", auth0_user_id);
        msg.message.attributes.device_id = Some(device_id.to_owned());
        msg.message.attributes.device_name = Some(device_name.to_owned());
        msg.message.attributes.id = Some(request_id.to_owned());
        msg.message.attributes.version = Some("1".to_owned());
        msg.message.data = Some(to_base64("PasscodeResetApproved".as_bytes()));
        msg
    }
}

/// Whether an event belongs to screen sharing.
pub open spec fn is_screenshare(a: AttributesView) -> bool {
    "Screenshare"@.is_prefix_of(a.event)
}

/// Whether a notification belongs on the socket of a device of a user.
pub open spec fn belongs_to(a: AttributesView, user: Seq<char>, device: Option<Seq<char>>) -> bool {
    is_screenshare(a) ==> {
        &&& a.auth0_user_id == user
        &&& a.target_client_id is Some && device is Some ==> a.target_client_id == device
    }
}

/// Whether a notification belongs on the socket of `device_id` / `user_id`. Screen share events
/// are per account, and a direct screen share message only goes to its `target_client_id`;
/// everything else goes everywhere.
pub fn delivers_to(msg: &WsMessage, user_id: &str, device_id: Option<&str>) -> (r: bool)
    ensures
        r == belongs_to(msg@.attributes, user_id@, crate::text::text_of_str(device_id)),
{
    let a = &msg.message.attributes;
    if !starts_with(a.event.as_str(), "Screenshare") {
        return true;
    }
    let for_device = match (&a.target_client_id, device_id) {
        (Some(target), Some(device)) => same(target.as_str(), device),
        _ => true,
    };
    same(a.auth0_user_id.as_str(), user_id) && for_device
}

/// What can happen to the socket of a client.
pub enum SocketEvent {
    /// A notification was broadcast.
    Broadcast(WsMessage),
    /// Notifications were missed.
    Lagged,
    /// No notification will be broadcast any more (or none can be sent).
    BroadcastEnded,
    /// The device that the client authenticated as was revoked.
    Revoked,
    /// The client sent a message that could be read.
    Client(ClientMessage),
    /// The client sent something else (a ping, binary data, a text that is no message).
    Other,
    /// The client closed the socket, or it failed.
    Closed,
}

/// What is to be done about it.
#[derive(Debug, Clone, Copy, PartialEq, Eq, Structural)]
pub enum SocketAction {
    Ignore,
    /// Send the notification of the event on this socket.
    Forward,
    /// Send a fresh `SyncComplete` on this socket.
    SendSyncComplete,
    /// Broadcast a fresh `SyncComplete`.
    BroadcastSyncComplete,
    /// Close the socket: its device was revoked.
    CloseRevoked,
    /// Stop serving the client.
    End,
}

/// A client's session on `/notifications/ws/json/1`.
pub struct NotificationSession {
    pub user_id: String,
    pub device_id: Option<String>,
    /// Whether notifications are still being forwarded.
    pub forwarding: bool,
}

/// What is done about `event` in a session of `device` / `user`.
pub open spec fn socket_action(
    user: Seq<char>,
    device: Option<Seq<char>>,
    forwarding: bool,
    event: SocketEvent,
) -> SocketAction {
    match event {
        SocketEvent::Broadcast(msg) => if forwarding && belongs_to(msg@.attributes, user, device) {
            SocketAction::Forward
        } else {
            SocketAction::Ignore
        },
        SocketEvent::Lagged => if forwarding {
            SocketAction::SendSyncComplete
        } else {
            SocketAction::Ignore
        },
        SocketEvent::Revoked => if forwarding {
            SocketAction::CloseRevoked
        } else {
            SocketAction::Ignore
        },
        SocketEvent::Client(m) => if crate::text::text_of(m.message_type) == Some("sync-request"@) {
            SocketAction::BroadcastSyncComplete
        } else {
            SocketAction::Ignore
        },
        SocketEvent::Closed => SocketAction::End,
        SocketEvent::BroadcastEnded | SocketEvent::Other => SocketAction::Ignore,
    }
}

impl NotificationSession {
    /// A session just opened. The client is to be sent a `SyncComplete` at once, so that it syncs.
    pub fn open(user_id: String, device_id: Option<String>) -> (r: (Self, SocketAction))
        ensures
            r.0.user_id == user_id,
            r.0.device_id == device_id,
            r.0.forwarding,
            r.1 == SocketAction::SendSyncComplete,
    {
        (
            NotificationSession { user_id, device_id, forwarding: true },
            SocketAction::SendSyncComplete,
        )
    }

    /// What is to be done about `event`. Missing a few events beats ending notifications for a
    /// client, but a missed `SyncComplete` would leave it out of date, so a fresh one goes out in
    /// place of whatever was lost.
    pub fn on_event(&mut self, event: &SocketEvent) -> (r: SocketAction)
        ensures
            final(self).user_id == old(self).user_id,
            final(self).device_id == old(self).device_id,
            final(self).forwarding == (old(self).forwarding && !(event is BroadcastEnded)
                && !(event is Revoked)),
            r == socket_action(
                old(self).user_id@,
                crate::text::text_of(old(self).device_id),
                old(self).forwarding,
                *event,
            ),
    {
        match event {
            SocketEvent::Broadcast(msg) => {
                let device = match &self.device_id {
                    Some(d) => Some(d.as_str()),
                    None => None,
                };
                if self.forwarding && delivers_to(msg, self.user_id.as_str(), device) {
                    SocketAction::Forward
                } else {
                    SocketAction::Ignore
                }
            },
            SocketEvent::Lagged => {
                if self.forwarding {
                    SocketAction::SendSyncComplete
                } else {
                    SocketAction::Ignore
                }
            },
            SocketEvent::BroadcastEnded => {
                self.forwarding = false;
                SocketAction::Ignore
            },
            SocketEvent::Revoked => {
                let was = self.forwarding;
                self.forwarding = false;
                if was {
                    SocketAction::CloseRevoked
                } else {
                    SocketAction::Ignore
                }
            },
            SocketEvent::Client(m) => {
                let sync = match &m.message_type {
                    Some(t) => same(t.as_str(), "sync-request"),
                    None => false,
                };
                if sync {
                    SocketAction::BroadcastSyncComplete
                } else {
                    SocketAction::Ignore
                }
            },
            SocketEvent::Other => SocketAction::Ignore,
            SocketEvent::Closed => SocketAction::End,
        }
    }
}

/// A screen share event reaches only sockets of its own account, and one with a target only that
/// client's (where the socket's device is known).
pub proof fn law_screenshare_stays_with_its_account(
    user: Seq<char>,
    device: Option<Seq<char>>,
    forwarding: bool,
    msg: WsMessage,
)
    requires
        is_screenshare(msg@.attributes),
        socket_action(user, device, forwarding, SocketEvent::Broadcast(msg))
            == SocketAction::Forward,
    ensures
        msg@.attributes.auth0_user_id == user,
        msg@.attributes.target_client_id is Some && device is Some
            ==> msg@.attributes.target_client_id == device,
{
}

/// Everything that is no screen share event reaches every socket that is being served.
pub proof fn law_other_events_go_everywhere(
    user: Seq<char>,
    device: Option<Seq<char>>,
    msg: WsMessage,
)
    requires
        !is_screenshare(msg@.attributes),
    ensures
        socket_action(user, device, true, SocketEvent::Broadcast(msg)) == SocketAction::Forward,
{
}

/// A client is served until it closes its socket: what was missed is made up for by a fresh
/// notification, a request to sync is told to everyone, a revoked device is closed, and what is
/// nothing to the client does nothing.
pub proof fn law_a_socket_serves_its_client(
    user: Seq<char>,
    device: Option<Seq<char>>,
    forwarding: bool,
    m: ClientMessage,
)
    ensures
        socket_action(user, device, true, SocketEvent::Lagged) == SocketAction::SendSyncComplete,
        socket_action(user, device, true, SocketEvent::Revoked) == SocketAction::CloseRevoked,
        socket_action(user, device, false, SocketEvent::Lagged) == SocketAction::Ignore,
        socket_action(user, device, false, SocketEvent::Revoked) == SocketAction::Ignore,
        m.message_type matches Some(t) && t@ == "sync-request"@ ==> socket_action(
            user,
            device,
            forwarding,
            SocketEvent::Client(m),
        ) == SocketAction::BroadcastSyncComplete,
        m.message_type is None || m.message_type->0@ != "sync-request"@ ==> socket_action(
            user,
            device,
            forwarding,
            SocketEvent::Client(m),
        ) == SocketAction::Ignore,
        socket_action(user, device, forwarding, SocketEvent::Closed) == SocketAction::End,
        socket_action(user, device, forwarding, SocketEvent::Other) == SocketAction::Ignore,
        socket_action(user, device, forwarding, SocketEvent::BroadcastEnded)
            == SocketAction::Ignore,
{
}

/// A notification about screen sharing goes to every socket of its own account that it is not
/// meant to pass by, and to no other; once forwarding is over nothing is forwarded.
pub proof fn law_screenshare_reaches_its_account(
    user: Seq<char>,
    device: Option<Seq<char>>,
    msg: WsMessage,
)
    ensures
        "Screenshare"@.is_prefix_of(msg@.attributes.event) && msg@.attributes.auth0_user_id == user
            && (msg@.attributes.target_client_id is None || device is None
            || msg@.attributes.target_client_id == device) ==> socket_action(
            user,
            device,
            true,
            SocketEvent::Broadcast(msg),
        ) == SocketAction::Forward,
        "Screenshare"@.is_prefix_of(msg@.attributes.event) && msg@.attributes.auth0_user_id != user
            ==> socket_action(user, device, true, SocketEvent::Broadcast(msg))
            == SocketAction::Ignore,
        socket_action(user, device, false, SocketEvent::Broadcast(msg)) == SocketAction::Ignore,
{
}

/// An event names what happened, who it is for and where it came from, and nothing else.
pub proof fn law_a_bare_event_names_its_source(event: Seq<char>, source: Seq<char>, user: Seq<char>)
    ensures
        bare_event(event, source, user).event == event,
        bare_event(event, source, user).source_device_id == source,
        bare_event(event, source, user).auth0_user_id == user,
        bare_event(event, source, user).device_id is None,
        bare_event(event, source, user).device_name is None,
        bare_event(event, source, user).id is None,
        bare_event(event, source, user).parent is None,
        bare_event(event, source, user).room_id is None,
        bare_event(event, source, user).target_client_id is None,
{
}

/// A stamped message tells when it was published, twice alike, and has ids of its own; the last of
/// them is the moment of its stamp.
pub proof fn law_a_message_is_stamped_with_its_moment(
    m: WsMessageView,
    id: Seq<char>,
    id_2: Seq<char>,
    stamp: Timestamp,
    published: Timestamp,
)
    requires
        stamp_at(m, id, id_2, stamp, published),
        stamp.seconds >= 0,
    ensures
        stamped(m),
        m.message_id == Some(id) && m.message_id_2 == Some(id_2),
        m.message_id_3 == Some(
            crate::text::decimal((stamp.seconds * 1_000_000_000 + stamp.nanos) as nat),
        ),
        m.publish_time == Some(crate::clock::rfc3339_nanos(published.seconds, published.nanos)),
        m.publish_time_2 == m.publish_time,
        m.subscription is Some,
{
}

} // verus!

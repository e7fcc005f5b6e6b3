//! The embedded MQTT broker: its settings, the events it announces and where.
//!
//! - `/notifications/ws/json/1`: notifications, in the devices' format
//! - `/sync/v2/sync-complete`: sync completion events

use vstd::prelude::*;
use vstd::string::*;

use crate::readlater::prefixed;

verus! {

/// Sync completion event payload
#[derive(Debug)]
pub struct SyncCompleteEvent {
    /// Document/folder ID that changed
    pub document_id: String,
    /// Type of change
    pub change_type: ChangeType,
    /// New hash after change
    pub hash: String,
    /// Timestamp (Unix milliseconds)
    pub timestamp: i64,
}

#[derive(Debug, Clone, Copy, PartialEq, Eq, Structural)]
pub enum ChangeType {
    Created,
    Modified,
    Deleted,
}

/// A change's name.
pub open spec fn change_name(c: ChangeType) -> Seq<char> {
    match c {
        ChangeType::Created => "created"@,
        ChangeType::Modified => "modified"@,
        ChangeType::Deleted => "deleted"@,
    }
}

impl ChangeType {
    /// The change's name.
    pub fn name(self) -> (r: &'static str)
        ensures
            r@ == change_name(self),
    {
        match self {
            ChangeType::Created => "created",
            ChangeType::Modified => "modified",
            ChangeType::Deleted => "deleted",
        }
    }
}

/// Where sync completion events are published.
pub const SYNC_COMPLETE_TOPIC: &'static str = "/sync/v2/sync-complete";

/// Where notifications are published.
pub const NOTIFICATION_TOPIC: &'static str = "/notifications/ws/json/1";

/// The type of the notification of a sync completion event.
pub const SYNC_COMPLETE_TYPE: &'static str = "sync-complete";

/// A step of publishing an event.
#[derive(Debug, Clone, Copy, PartialEq, Eq, Structural)]
pub enum PublishStep {
    /// Publish the event itself, on its topic.
    Event,
    /// Publish the notification of it, on theirs.
    Notification,
    /// Tell those who listen inside the server.
    Broadcast,
    /// All is done.
    Done,
}

/// What is published next: the event, its notification, and at last those inside the server are
/// told. Where publishing fails, nothing that comes after is done.
pub fn after(step: PublishStep, failed: Option<MqttError>) -> (r: Result<PublishStep, MqttError>)
    ensures
        match failed {
            Some(e) => r == Err::<PublishStep, MqttError>(e),
            None => r == Ok::<PublishStep, MqttError>(
                match step {
                    PublishStep::Event => PublishStep::Notification,
                    PublishStep::Notification => PublishStep::Broadcast,
                    PublishStep::Broadcast => PublishStep::Done,
                    PublishStep::Done => PublishStep::Done,
                },
            ),
        },
{
    match failed {
        Some(e) => Err(e),
        None => Ok(
            match step {
                PublishStep::Event => PublishStep::Notification,
                PublishStep::Notification => PublishStep::Broadcast,
                PublishStep::Broadcast => PublishStep::Done,
                PublishStep::Done => PublishStep::Done,
            },
        ),
    }
}

/// Broker settings
#[derive(Debug)]
pub struct MqttConfig {
    /// TCP listener address for raw MQTT (optional)
    pub tcp_addr: Option<String>,
    /// WebSocket listener address
    pub ws_addr: String,
    /// Maximum connections
    pub max_connections: usize,
    /// Connection timeout in milliseconds
    pub connection_timeout_ms: u16,
}

impl Default for MqttConfig {
    fn default() -> (r: Self)
        ensures
            crate::text::text_of(r.tcp_addr) == Some("127.0.0.1:1883"@),
            r.ws_addr@ == "127.0.0.1:8083"@,
            r.max_connections == 1000,
            r.connection_timeout_ms == 60000,
    {
        MqttConfig {
            tcp_addr: Some("127.0.0.1:1883".to_owned()),
            ws_addr: "127.0.0.1:8083".to_owned(),
            max_connections: 1000,
            connection_timeout_ms: 60000,
        }
    }
}

/// A listener of the broker.
#[derive(Debug)]
pub struct Listener {
    pub name: &'static str,
    pub listen: String,
    pub next_connection_delay_ms: u64,
    pub connection_timeout_ms: u16,
    pub max_payload_size: usize,
    pub max_inflight_count: usize,
    pub dynamic_filters: bool,
}

/// What the broker is started with.
#[derive(Debug)]
pub struct BrokerSettings {
    pub max_connections: usize,
    pub max_outgoing_packet_count: u64,
    pub max_segment_size: usize,
    pub max_segment_count: usize,
    /// Listener for raw MQTT, where there is one.
    pub tcp: Option<Listener>,
    pub ws: Listener,
}

/// Whether `l` is a listener under a name at an address.
pub open spec fn listens(l: Listener, name: Seq<char>, addr: Seq<char>, timeout: u16) -> bool {
    &&& l.name@ == name
    &&& l.listen@ == addr
    &&& l.next_connection_delay_ms == 1
    &&& l.connection_timeout_ms == timeout
    &&& l.max_payload_size == 256 * 1024
    &&& l.max_inflight_count == 100
    &&& l.dynamic_filters
}

fn listener(name: &'static str, listen: String, timeout: u16) -> (r: Listener)
    ensures
        listens(r, name@, listen@, timeout),
{
    Listener {
        name,
        listen,
        next_connection_delay_ms: 1,
        connection_timeout_ms: timeout,
        max_payload_size: 256 * 1024,
        max_inflight_count: 100,
        dynamic_filters: true,
    }
}

impl MqttConfig {
    /// What the broker is started with: a WebSocket listener, and one for raw MQTT where an address
    /// for it is given.
    pub fn broker_settings(self) -> (r: BrokerSettings)
        ensures
            r.max_connections == self.max_connections,
            r.max_outgoing_packet_count == 200,
            r.max_segment_size == 10 * 1024 * 1024,
            r.max_segment_count == 10,
            listens(r.ws, "mqtt-ws"@, self.ws_addr@, self.connection_timeout_ms),
            match self.tcp_addr {
                Some(addr) => r.tcp matches Some(l) && listens(
                    l,
                    "mqtt-tcp"@,
                    addr@,
                    self.connection_timeout_ms,
                ),
                None => r.tcp is None,
            },
    {
        BrokerSettings {
            max_connections: self.max_connections,
            max_outgoing_packet_count: 200,
            max_segment_size: 10 * 1024 * 1024,
            max_segment_count: 10,
            tcp: match self.tcp_addr {
                Some(addr) => Some(listener("mqtt-tcp", addr, self.connection_timeout_ms)),
                None => None,
            },
            ws: listener("mqtt-ws", self.ws_addr, self.connection_timeout_ms),
        }
    }
}

#[derive(Debug)]
pub enum MqttError {
    LinkError(String),
    SpawnError(String),
    NotConnected,
    SerializeError(String),
    PublishError(String),
}

/// An error in words.
pub open spec fn error_text(e: MqttError) -> Seq<char> {
    match e {
        MqttError::LinkError(s) => "Failed to create broker link: "@ + s@,
        MqttError::SpawnError(s) => "Failed to spawn broker thread: "@ + s@,
        MqttError::NotConnected => "Broker not connected"@,
        MqttError::SerializeError(s) => "Failed to serialize message: "@ + s@,
        MqttError::PublishError(s) => "Failed to publish message: "@ + s@,
    }
}

impl MqttError {
    /// The error in words.
    pub fn message(&self) -> (r: String)
        ensures
            r@ == error_text(*self),
    {
        match self {
            MqttError::LinkError(s) => prefixed("Failed to create broker link: ", s.as_str()),
            MqttError::SpawnError(s) => prefixed("Failed to spawn broker thread: ", s.as_str()),
            MqttError::NotConnected => "Broker not connected".to_owned(),
            MqttError::SerializeError(s) => prefixed("Failed to serialize message: ", s.as_str()),
            MqttError::PublishError(s) => prefixed("Failed to publish message: ", s.as_str()),
        }
    }
}

/// A change is told in one word, another for each kind.
pub proof fn law_changes_are_told_in_one_word(c: ChangeType)
    ensures
        c is Created ==> change_name(c) == "created"@,
        c is Modified ==> change_name(c) == "modified"@,
        c is Deleted ==> change_name(c) == "deleted"@,
{
}

/// A listener listens where it is told to, takes packets of 256 KiB and a hundred at once.
pub proof fn law_a_listener_listens_where_it_is_told(
    l: Listener,
    name: Seq<char>,
    addr: Seq<char>,
    timeout: u16,
)
    requires
        listens(l, name, addr, timeout),
    ensures
        l.name@ == name && l.listen@ == addr,
        l.connection_timeout_ms == timeout,
        l.max_payload_size == 262_144 && l.max_inflight_count == 100,
        l.next_connection_delay_ms == 1 && l.dynamic_filters,
{
}

} // verus!

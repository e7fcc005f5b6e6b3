//! MQTT 3.1.1 over WebSocket, as an alternative framing of the `/notifications/ws/json/1` push.
//!
//! Off by default: it is served at [`PATH`] only when [`ENABLE_ENV`] says so (see
//! [`is_enabled`]), because no tablet uses it. A notification goes out on each concrete topic
//! that the client subscribed to. A wildcard filter has no concrete topic, so its SUBACK says so
//! ([`SUBACK_FAILURE`]). Each binary frame is read as one whole packet.

use vstd::prelude::*;
use vstd::slice::*;
use vstd::string::*;
use vstd::utf8::*;

use crate::notifications::WsMessage;
use crate::text::{same, starts_with, to_chars, utf8_str};

verus! {

/// Environment variable that serves [`PATH`] when set to `1`, `true` or `on`.
pub const ENABLE_ENV: &'static str = "MQTT_WS_NOTIFICATIONS";

/// Where the endpoint is served when enabled.
pub const PATH: &'static str = "/mqtt";

/// How many seconds a client has, from the WebSocket upgrade, to send its CONNECT. An upgrade
/// without credentials is only authenticated at CONNECT, so without this such a socket could
/// stay open indefinitely.
pub const CONNECT_TIMEOUT_SECS: u64 = 30;

/// SUBACK return code for a filter the server refuses.
pub const SUBACK_FAILURE: u8 = 0x80;

/// User of server-originated events not tied to an account; every authenticated user gets those.
pub const SERVER_USER: &'static str = "local-user";

/// Whether the endpoint is served, by the value of [`ENABLE_ENV`].
pub fn is_enabled(flag: Option<&str>) -> (r: bool)
    ensures
        r == (flag matches Some(f) && (f@ == "1"@ || f@ == "true"@ || f@ == "on"@)),
{
    match flag {
        Some(f) => same(f, "1") || same(f, "true") || same(f, "on"),
        None => false,
    }
}

/// MQTT packet types.
#[derive(Debug, Clone, Copy, PartialEq, Eq, Structural)]
pub enum PacketType {
    Connect,
    Connack,
    Publish,
    Puback,
    Pubrec,
    Pubrel,
    Pubcomp,
    Subscribe,
    Suback,
    Unsubscribe,
    Unsuback,
    Pingreq,
    Pingresp,
    Disconnect,
}

/// The packet type of a code.
pub open spec fn packet_type(v: u8) -> Option<PacketType> {
    match v {
        1 => Some(PacketType::Connect),
        2 => Some(PacketType::Connack),
        3 => Some(PacketType::Publish),
        4 => Some(PacketType::Puback),
        5 => Some(PacketType::Pubrec),
        6 => Some(PacketType::Pubrel),
        7 => Some(PacketType::Pubcomp),
        8 => Some(PacketType::Subscribe),
        9 => Some(PacketType::Suback),
        10 => Some(PacketType::Unsubscribe),
        11 => Some(PacketType::Unsuback),
        12 => Some(PacketType::Pingreq),
        13 => Some(PacketType::Pingresp),
        14 => Some(PacketType::Disconnect),
        _ => None,
    }
}

impl TryFrom<u8> for PacketType {
    type Error = ();

    fn try_from(v: u8) -> (r: Result<Self, ()>) {
        match v {
            1 => Ok(PacketType::Connect),
            2 => Ok(PacketType::Connack),
            3 => Ok(PacketType::Publish),
            4 => Ok(PacketType::Puback),
            5 => Ok(PacketType::Pubrec),
            6 => Ok(PacketType::Pubrel),
            7 => Ok(PacketType::Pubcomp),
            8 => Ok(PacketType::Subscribe),
            9 => Ok(PacketType::Suback),
            10 => Ok(PacketType::Unsubscribe),
            11 => Ok(PacketType::Unsuback),
            12 => Ok(PacketType::Pingreq),
            13 => Ok(PacketType::Pingresp),
            14 => Ok(PacketType::Disconnect),
            _ => Err(()),
        }
    }
}

impl vstd::std_specs::convert::TryFromSpecImpl<u8> for PacketType {
    open spec fn obeys_try_from_spec() -> bool {
        true
    }

    open spec fn try_from_spec(v: u8) -> Result<Self, ()> {
        match packet_type(v) {
            Some(t) => Ok(t),
            None => Err(()),
        }
    }
}

/// The number that `data` begins with in the variable-length encoding (seven bits to a byte, the
/// least significant first, all but the last byte marked), in at most `most` bytes; and how many
/// bytes it takes.
pub open spec fn varint(data: Seq<u8>, most: nat) -> Option<(nat, nat)>
    decreases most,
{
    if most == 0 || data.len() == 0 {
        None
    } else if data[0] < 0x80 {
        Some((data[0] as nat, 1))
    } else {
        match varint(data.drop_first(), (most - 1) as nat) {
            Some((v, n)) => Some(((data[0] - 0x80) as nat + 128 * v, n + 1)),
            None => None,
        }
    }
}

/// Parse MQTT remaining length (variable length encoding, at most four bytes): the length, and
/// how many bytes it takes.
pub fn parse_remaining_length(data: &[u8]) -> (r: Option<(usize, usize)>)
    ensures
        match varint(data@, 4) {
            Some((v, n)) => r == Some((v as usize, n as usize)) && v <= 268_435_455 && 1 <= n <= 4
                && n <= data@.len(),
            None => r is None,
        },
{
    let mut multiplier: usize = 1;
    let mut value: usize = 0;
    let mut idx: usize = 0;
    assert(data@.skip(0) =~= data@);
    while idx < 4
        invariant
            idx <= 4,
            idx <= data@.len(),
            multiplier == (if idx == 0 {
                1int
            } else if idx == 1 {
                128
            } else if idx == 2 {
                16384
            } else if idx == 3 {
                2097152
            } else {
                268435456
            }),
            value < multiplier,
            match varint(data@.skip(idx as int), (4 - idx) as nat) {
                Some((v, n)) => varint(data@, 4) == Some(
                    ((value + multiplier * v) as nat, (idx + n) as nat),
                ),
                None => varint(data@, 4) is None,
            },
        decreases 4 - idx,
    {
        if idx >= data.len() {
            return None;
        }
        let byte: u8 = data[idx];
        assert(byte & 0x7F == byte % 128) by (bit_vector);
        assert(byte & 0x80 == 0 <==> byte < 128) by (bit_vector);
        let low: usize = (byte & 0x7F) as usize;
        let ghost rest = data@.skip(idx as int);
        assert(rest[0] == byte);
        assert(rest.drop_first() =~= data@.skip(idx as int + 1));
        let ghost tail = varint(rest.drop_first(), (4 - idx - 1) as nat);
        if byte & 0x80 == 0 {
            assert(varint(rest, (4 - idx) as nat) == Some((byte as nat, 1nat)));
            assert(low * multiplier <= 127 * multiplier) by (nonlinear_arith)
                requires
                    low <= 127,
                    multiplier >= 0,
            ;
            assert(multiplier * (byte as nat) == low * multiplier) by (nonlinear_arith)
                requires
                    low == byte,
            ;
            return Some((value + low * multiplier, idx + 1));
        }
        assert(low * multiplier <= 127 * multiplier) by (nonlinear_arith)
            requires
                low <= 127,
                multiplier >= 0,
        ;
        proof {
            if let Some((v, n)) = tail {
                assert(multiplier * ((byte - 0x80) + 128 * v) == low * multiplier + (multiplier
                    * 128) * v) by (nonlinear_arith)
                    requires
                        low == byte - 0x80,
                ;
            }
        }
        value = value + low * multiplier;
        multiplier = multiplier * 128;
        idx = idx + 1;
    }
    None
}

/// `n` in the variable-length encoding.
pub open spec fn varint_bytes(n: nat) -> Seq<u8>
    decreases n,
{
    if n < 128 {
        seq![n as u8]
    } else {
        seq![(n % 128 + 128) as u8] + varint_bytes(n / 128)
    }
}

/// Append `len` in MQTT's variable-length remaining-length encoding.
pub fn push_remaining_length(packet: &mut Vec<u8>, len: usize)
    ensures
        final(packet)@ == old(packet)@ + varint_bytes(len as nat),
{
    let mut left: usize = len;
    loop
        invariant_except_break
            packet@ + varint_bytes(left as nat) == old(packet)@ + varint_bytes(len as nat),
        ensures
            packet@ == old(packet)@ + varint_bytes(len as nat),
        decreases left,
    {
        let byte: u8 = (left % 128) as u8;
        let next: usize = left / 128;
        let ghost before = packet@;
        if next == 0 {
            packet.push(byte);
            assert(packet@ =~= before + varint_bytes(left as nat));
            break;
        }
        assert(byte < 128 ==> byte | 0x80 == byte + 128) by (bit_vector);
        packet.push(byte | 0x80);
        assert(before + (seq![(left % 128 + 128) as u8] + varint_bytes(next as nat)) =~= packet@
            + varint_bytes(next as nat));
        left = next;
    }
}

/// The packet of a frame that holds exactly one: what follows its fixed header.
pub open spec fn body_of(frame: Seq<u8>) -> Option<Seq<u8>> {
    if frame.len() == 0 {
        None
    } else {
        match varint(frame.skip(1), 4) {
            Some((len, n)) => if 1 + n + len == frame.len() {
                Some(frame.skip(1 + n as int))
            } else {
                None
            },
            None => None,
        }
    }
}

/// The bytes of an optional slice.
pub open spec fn bytes_of(s: Option<&[u8]>) -> Option<Seq<u8>> {
    match s {
        Some(b) => Some(b@),
        None => None,
    }
}

/// The variable header and payload of the MQTT packet in `frame` (everything after the fixed
/// header). `None` when its remaining length is malformed or does not end exactly at the end of
/// the frame.
pub fn packet_body(frame: &[u8]) -> (r: Option<&[u8]>)
    ensures
        bytes_of(r) == body_of(frame@),
        r matches Some(b) ==> b@.len() < frame@.len(),
{
    if frame.len() == 0 {
        return None;
    }
    let rest = slice_subrange(frame, 1, frame.len());
    assert(rest@ =~= frame@.skip(1));
    match parse_remaining_length(rest) {
        Some((len, n)) => {
            if frame.len() - 1 - n == len {
                let body = slice_subrange(frame, 1 + n, frame.len());
                assert(body@ =~= frame@.skip(1 + n as int));
                Some(body)
            } else {
                None
            }
        },
        None => None,
    }
}

/// The bytes that `data` begins with, after their length in two bytes.
pub open spec fn field(data: Seq<u8>) -> Option<Seq<u8>> {
    if data.len() < 2 {
        None
    } else {
        let n = data[0] * 256 + data[1];
        if data.len() < 2 + n {
            None
        } else {
            Some(data.subrange(2, 2 + n))
        }
    }
}

/// Parse MQTT binary data (2-byte length prefix): the data, and how many bytes were read.
pub fn parse_mqtt_bytes(data: &[u8]) -> (r: Option<(&[u8], usize)>)
    ensures
        match field(data@) {
            Some(b) => r matches Some((s, n)) && s@ == b && n == 2 + b.len() && n <= data@.len(),
            None => r is None,
        },
{
    if data.len() < 2 {
        return None;
    }
    let len: usize = data[0] as usize * 256 + data[1] as usize;
    if data.len() < 2 + len {
        return None;
    }
    Some((slice_subrange(data, 2, 2 + len), 2 + len))
}

/// The text that `data` begins with, after its length in two bytes.
pub open spec fn string_field(data: Seq<u8>) -> Option<Seq<char>> {
    match field(data) {
        Some(b) => if valid_utf8(b) {
            Some(decode_utf8(b))
        } else {
            None
        },
        None => None,
    }
}

/// Parse an MQTT string (2-byte length prefix and UTF-8): the text, and how many bytes were read.
pub fn parse_mqtt_string(data: &[u8]) -> (r: Option<(&str, usize)>)
    ensures
        match string_field(data@) {
            Some(t) => r matches Some((s, n)) && s@ == t && n == 2 + field(data@)->0.len() && n
                <= data@.len() && encode_utf8(t).len() <= 65535,
            None => r is None,
        },
{
    match parse_mqtt_bytes(data) {
        Some((b, n)) => match utf8_str(b) {
            Some(s) => {
                proof {
                    encode_utf8_decode_utf8(s@);
                }
                Some((s, n))
            },
            None => None,
        },
        None => None,
    }
}

/// Why a CONNECT is refused before its credentials are looked at.
#[derive(Debug, Clone, Copy, PartialEq, Eq, Structural)]
pub enum ConnectError {
    /// Not a conforming CONNECT: the connection is closed without a CONNACK.
    Malformed,
    /// A protocol level other than MQTT 3.1.1 (or 3.1 as `MQIsdp`): CONNACK 0x01, then close.
    UnsupportedLevel,
}

/// The fields that make up all of `data`, one per entry of `kinds`; where that is `true`, the
/// field must be UTF-8.
pub open spec fn fields(data: Seq<u8>, kinds: Seq<bool>) -> Option<Seq<Seq<u8>>>
    decreases kinds.len(),
{
    if kinds.len() == 0 {
        if data.len() == 0 {
            Some(Seq::empty())
        } else {
            None
        }
    } else {
        match field(data) {
            Some(f) => if kinds[0] && !valid_utf8(f) {
                None
            } else {
                match fields(data.skip(2 + f.len() as int), kinds.drop_first()) {
                    Some(rest) => Some(seq![f] + rest),
                    None => None,
                }
            },
            None => None,
        }
    }
}

/// What a CONNECT's flags declare to be in its payload: the client id, a will's topic and
/// message, a username, a password.
pub open spec fn payload_kinds(flags: u8) -> Seq<bool> {
    seq![true] + (if flags & 0x04 != 0 {
        seq![true, false]
    } else {
        seq![]
    }) + (if flags & 0x80 != 0 {
        seq![true]
    } else {
        seq![]
    }) + (if flags & 0x40 != 0 {
        seq![false]
    } else {
        seq![]
    })
}

/// Whether a CONNECT's flags are consistent: no reserved bit, no will options without a will, no
/// password without a username.
pub open spec fn flags_ok(flags: u8) -> bool {
    &&& flags & 0x01 == 0
    &&& flags & 0x04 == 0 ==> flags & 0x38 == 0
    &&& flags & 0x40 != 0 ==> flags & 0x80 != 0
}

/// The credential that a CONNECT with these flags and fields gives: its password, or its username
/// when the password is empty or absent.
pub open spec fn credential(flags: u8, found: Seq<Seq<u8>>) -> Option<Seq<u8>> {
    let username = if flags & 0x80 != 0 {
        Some(
            found[if flags & 0x40 != 0 {
                found.len() - 2
            } else {
                found.len() - 1
            }],
        )
    } else {
        None
    };
    if flags & 0x40 != 0 && found.last().len() > 0 {
        Some(found.last())
    } else {
        username
    }
}

/// The token of a CONNECT packet, or why it is refused.
pub open spec fn connect_of(body: Seq<u8>) -> Result<Option<Seq<char>>, ConnectError> {
    match string_field(body) {
        None => Err(ConnectError::Malformed),
        Some(protocol) => {
            let at = 2 + field(body)->0.len();
            if body.len() < at + 4 {
                Err(ConnectError::Malformed)
            } else {
                let level = body[at as int];
                let flags = body[at as int + 1];
                if protocol != "MQTT"@ && protocol != "MQIsdp"@ {
                    Err(ConnectError::Malformed)
                } else if level != (if protocol == "MQTT"@ {
                    4u8
                } else {
                    3u8
                }) {
                    Err(ConnectError::UnsupportedLevel)
                } else if !flags_ok(flags) {
                    Err(ConnectError::Malformed)
                } else {
                    match fields(body.skip(at as int + 4), payload_kinds(flags)) {
                        None => Err(ConnectError::Malformed),
                        Some(found) => match credential(flags, found) {
                            Some(t) => if valid_utf8(t) {
                                Ok(Some(decode_utf8(t)))
                            } else {
                                Ok(None)
                            },
                            None => Ok(None),
                        },
                    }
                }
            }
        },
    }
}

/// The bytes of each slice.
pub open spec fn slices(s: Seq<&[u8]>) -> Seq<Seq<u8>> {
    s.map_values(|b: &[u8]| b@)
}

/// Read the fields that make up all of `data`.
fn read_fields<'a>(data: &'a [u8], kinds: &Vec<bool>) -> (r: Option<Vec<&'a [u8]>>)
    ensures
        match fields(data@, kinds@) {
            Some(found) => r matches Some(v) && slices(v@) == found,
            None => r is None,
        },
{
    let mut found: Vec<&'a [u8]> = Vec::new();
    let mut rest: &'a [u8] = data;
    let mut i: usize = 0;
    assert(kinds@.skip(0) =~= kinds@);
    assert(forall|x: Seq<Seq<u8>>| #[trigger] (slices(found@) + x) =~= x);
    while i < kinds.len()
        invariant
            i <= kinds@.len(),
            match fields(rest@, kinds@.skip(i as int)) {
                Some(more) => fields(data@, kinds@) == Some(slices(found@) + more),
                None => fields(data@, kinds@) is None,
            },
        decreases kinds@.len() - i,
    {
        let ghost left = kinds@.skip(i as int);
        assert(left[0] == kinds@[i as int]);
        assert(left.drop_first() =~= kinds@.skip(i as int + 1));
        match parse_mqtt_bytes(rest) {
            None => {
                return None;
            },
            Some((b, n)) => {
                if kinds[i] && utf8_str(b).is_none() {
                    return None;
                }
                let next = slice_subrange(rest, n, rest.len());
                assert(next@ =~= rest@.skip(n as int));
                let ghost before = slices(found@);
                found.push(b);
                assert(slices(found@) =~= before.push(b@));
                proof {
                    if let Some(more) = fields(next@, left.drop_first()) {
                        assert(before + (seq![b@] + more) =~= slices(found@) + more);
                    }
                }
                rest = next;
            },
        }
        i += 1;
    }
    assert(kinds@.skip(i as int).len() == 0);
    if rest.len() == 0 {
        assert(slices(found@) + Seq::<Seq<u8>>::empty() =~= slices(found@));
        Some(found)
    } else {
        None
    }
}

/// The token a CONNECT (variable header and payload) carries: its password, or its username when
/// the password is empty or absent. `Ok(None)` when it has no credentials, or only non-UTF-8
/// ones. Every field its flags declare must be there and nothing may follow them, so a malformed
/// CONNECT is refused even on an upgrade already authenticated otherwise.
pub fn connect_token(body: &[u8]) -> (r: Result<Option<String>, ConnectError>)
    ensures
        match connect_of(body@) {
            Ok(t) => r matches Ok(s) && crate::text::text_of(s) == t,
            Err(e) => r == Err::<Option<String>, ConnectError>(e),
        },
{
    let (protocol, at) = match parse_mqtt_string(body) {
        Some((p, n)) => (p, n),
        None => {
            return Err(ConnectError::Malformed);
        },
    };
    if body.len() - at < 4 {
        return Err(ConnectError::Malformed);
    }
    // Level, flags, keep alive.
    let level: u8 = body[at];
    let flags: u8 = body[at + 1];
    let mqtt = same(protocol, "MQTT");
    if !mqtt && !same(protocol, "MQIsdp") {
        return Err(ConnectError::Malformed);
    }
    if level != (if mqtt {
        4u8
    } else {
        3u8
    }) {
        return Err(ConnectError::UnsupportedLevel);
    }
    let will = flags & 0x04 != 0;
    let username_flag = flags & 0x80 != 0;
    let password_flag = flags & 0x40 != 0;
    if flags & 0x01 != 0 || (!will && flags & 0x38 != 0) || (password_flag && !username_flag) {
        return Err(ConnectError::Malformed);
    }
    let mut kinds: Vec<bool> = vec![true];
    if will {
        kinds.push(true);
        kinds.push(false);
    }
    if username_flag {
        kinds.push(true);
    }
    if password_flag {
        kinds.push(false);
    }
    assert(kinds@ =~= payload_kinds(flags));
    let rest = slice_subrange(body, at + 4, body.len());
    assert(rest@ =~= body@.skip(at as int + 4));
    let found = match read_fields(rest, &kinds) {
        Some(f) => f,
        None => {
            return Err(ConnectError::Malformed);
        },
    };
    proof {
        lemma_field_count(rest@, kinds@);
        assert(slices(found@).len() == found@.len());
        assert forall|i: int| 0 <= i < found@.len() implies slices(found@)[i] == #[trigger] found@[i]@ by {}
    }
    let n: usize = found.len();
    let token: Option<&[u8]> = if password_flag && found[n - 1].len() > 0 {
        Some(found[n - 1])
    } else if username_flag {
        Some(
            found[if password_flag {
                n - 2
            } else {
                n - 1
            }],
        )
    } else {
        None
    };
    match token {
        Some(t) => match utf8_str(t) {
            Some(s) => {
                proof {
                    encode_utf8_decode_utf8(s@);
                }
                Ok(Some(s.to_owned()))
            },
            None => Ok(None),
        },
        None => Ok(None),
    }
}

/// There is one field for each kind.
proof fn lemma_field_count(data: Seq<u8>, kinds: Seq<bool>)
    ensures
        fields(data, kinds) matches Some(f) ==> f.len() == kinds.len(),
    decreases kinds.len(),
{
    if kinds.len() > 0 {
        if let Some(f) = field(data) {
            lemma_field_count(data.skip(2 + f.len() as int), kinds.drop_first());
        }
    }
}

/// Build CONNACK packet.
pub fn build_connack(session_present: bool, return_code: u8) -> (r: Vec<u8>)
    ensures
        r@ == seq![0x20u8, 0x02, if session_present { 0x01u8 } else { 0x00u8 }, return_code],
{
    let present: u8 = if session_present {
        0x01
    } else {
        0x00
    };
    let r = vec![0x20, 0x02, present, return_code];
    assert(r@ =~= seq![0x20u8, 0x02, present, return_code]);
    r
}

/// A SUBACK packet.
pub open spec fn suback(packet_id: u16, codes: Seq<u8>) -> Seq<u8> {
    seq![0x90u8] + varint_bytes(2 + codes.len()) + seq![
        (packet_id / 256) as u8,
        (packet_id % 256) as u8,
    ] + codes
}

/// Build SUBACK packet.
pub fn build_suback(packet_id: u16, qos_levels: &[u8]) -> (r: Vec<u8>)
    requires
        2 + qos_levels@.len() <= usize::MAX,
    ensures
        r@ == suback(packet_id, qos_levels@),
{
    let mut packet: Vec<u8> = vec![0x90];
    push_remaining_length(&mut packet, 2 + qos_levels.len());
    packet.push((packet_id / 256) as u8);
    packet.push((packet_id % 256) as u8);
    packet.extend_from_slice(qos_levels);
    assert(packet@ =~= suback(packet_id, qos_levels@));
    packet
}

/// Build PINGRESP packet.
pub fn build_pingresp() -> (r: Vec<u8>)
    ensures
        r@ == seq![0xD0u8, 0x00],
{
    let r = vec![0xD0, 0x00];
    assert(r@ =~= seq![0xD0u8, 0x00]);
    r
}

/// A PUBLISH packet. The topic's length goes out in two bytes.
pub open spec fn publish(topic: Seq<u8>, payload: Seq<u8>, qos: u8, packet_id: Option<u16>) -> Seq<
    u8,
> {
    let id_len: nat = if qos > 0 {
        2
    } else {
        0
    };
    let id = match packet_id {
        Some(id) => seq![(id / 256) as u8, (id % 256) as u8],
        None => seq![],
    };
    seq![0x30 | (qos << 1)] + varint_bytes(2 + topic.len() + payload.len() + id_len) + seq![
        (topic.len() / 256 % 256) as u8,
        (topic.len() % 256) as u8,
    ] + topic + id + payload
}

/// Build PUBLISH packet.
pub fn build_publish(topic: &str, payload: &[u8], qos: u8, packet_id: Option<u16>) -> (r: Vec<u8>)
    requires
        encode_utf8(topic@).len() + payload@.len() + 4 <= usize::MAX,
    ensures
        r@ == publish(encode_utf8(topic@), payload@, qos, packet_id),
{
    let topic_bytes = topic.as_bytes();
    let topic_len: usize = topic_bytes.len();
    let mut remaining_len: usize = 2 + topic_len + payload.len();
    if qos > 0 {
        remaining_len = remaining_len + 2;
    }
    let mut packet: Vec<u8> = vec![0x30 | (qos << 1)];
    push_remaining_length(&mut packet, remaining_len);
    packet.push((topic_len / 256 % 256) as u8);
    packet.push((topic_len % 256) as u8);
    packet.extend_from_slice(topic_bytes);
    if let Some(id) = packet_id {
        packet.push((id / 256) as u8);
        packet.push((id % 256) as u8);
    }
    packet.extend_from_slice(payload);
    assert(packet@ =~= publish(encode_utf8(topic@), payload@, qos, packet_id));
    packet
}

/// Whether a filter names one topic.
pub open spec fn concrete(filter: Seq<char>) -> bool {
    filter.len() > 0 && !filter.contains('+') && !filter.contains('#')
}

/// Whether notifications can go out on `filter`: a non-empty topic without `+`/`#`. A wildcard
/// filter names no single topic to publish on; such filters are refused in the SUBACK
/// ([`SUBACK_FAILURE`]) instead of being acknowledged and never served.
pub fn is_concrete(filter: &str) -> (r: bool)
    ensures
        r == concrete(filter@),
{
    let cs = to_chars(filter);
    if cs.len() == 0 {
        return false;
    }
    let mut i: usize = 0;
    while i < cs.len()
        invariant
            cs@ == filter@,
            i <= cs@.len(),
            forall|j: int| 0 <= j < i ==> cs@[j] != '+' && cs@[j] != '#',
        decreases cs@.len() - i,
    {
        if cs[i] == '+' || cs[i] == '#' {
            assert(filter@[i as int] == cs@[i as int]);
            return false;
        }
        i += 1;
    }
    true
}

/// The concrete topics among `filters`, each once, in the order of their first occurrence.
pub open spec fn topics_of(filters: Seq<Seq<char>>) -> Seq<Seq<char>>
    decreases filters.len(),
{
    if filters.len() == 0 {
        Seq::empty()
    } else {
        let before = topics_of(filters.drop_last());
        if concrete(filters.last()) && !before.contains(filters.last()) {
            before.push(filters.last())
        } else {
            before
        }
    }
}

/// Whether an event is forwarded to the MQTT session of `user`: one for that user, or the
/// server's own, but none of screen sharing (which has its own broker).
pub open spec fn forwarded(a: crate::notifications::AttributesView, user: Seq<char>) -> bool {
    !crate::notifications::is_screenshare(a) && (a.auth0_user_id == user || a.auth0_user_id
        == SERVER_USER@)
}

/// The packets that carry `payload` on `topics`.
pub open spec fn publishes(topics: Seq<Seq<char>>, payload: Seq<u8>) -> Seq<Seq<u8>> {
    topics.map_values(|t: Seq<char>| publish(encode_utf8(t), payload, 0, None))
}

/// The bytes of each packet.
pub open spec fn packets(v: Seq<Vec<u8>>) -> Seq<Seq<u8>> {
    v.map_values(|p: Vec<u8>| p@)
}

/// MQTT PUBLISH packets (QoS 0) that carry `msg`, whose JSON is `payload`, for the session of
/// `user_id`: one on each concrete topic among `subscriptions`.
pub fn notification_publishes(
    msg: &WsMessage,
    payload: &[u8],
    subscriptions: &Vec<String>,
    user_id: &str,
) -> (r: Vec<Vec<u8>>)
    requires
        forall|i: int|
            0 <= i < subscriptions@.len() ==> encode_utf8(#[trigger] subscriptions@[i]@).len()
                + payload@.len() + 4 <= usize::MAX,
    ensures
        packets(r@) == (if forwarded(msg@.attributes, user_id@) {
            publishes(topics_of(crate::text::texts(subscriptions@)), payload@)
        } else {
            Seq::empty()
        }),
{
    let mut out: Vec<Vec<u8>> = Vec::new();
    let a = &msg.message.attributes;
    if starts_with(a.event.as_str(), "Screenshare") || (!same(a.auth0_user_id.as_str(), user_id)
        && !same(a.auth0_user_id.as_str(), SERVER_USER)) {
        assert(packets(out@) =~= Seq::empty());
        return out;
    }
    let mut seen: Vec<&str> = Vec::new();
    let mut i: usize = 0;
    let ghost all = crate::text::texts(subscriptions@);
    assert(all.take(0) =~= Seq::empty());
    assert(packets(out@) =~= publishes(topics_of(all.take(0)), payload@));
    while i < subscriptions.len()
        invariant
            i <= subscriptions@.len(),
            all == crate::text::texts(subscriptions@),
            forall|k: int|
                0 <= k < subscriptions@.len() ==> encode_utf8(#[trigger] subscriptions@[k]@).len()
                    + payload@.len() + 4 <= usize::MAX,
            seen@.map_values(|t: &str| t@) == topics_of(all.take(i as int)),
            packets(out@) == publishes(topics_of(all.take(i as int)), payload@),
        decreases subscriptions@.len() - i,
    {
        let t = subscriptions[i].as_str();
        let ghost now = all.take(i as int + 1);
        assert(now.drop_last() =~= all.take(i as int));
        assert(now.last() == t@);
        let ghost before = topics_of(all.take(i as int));
        if is_concrete(t) && !holds(&seen, t) {
            seen.push(t);
            assert(seen@.map_values(|x: &str| x@) =~= before.push(t@));
            let p = build_publish(t, payload, 0, None);
            out.push(p);
            assert(packets(out@) =~= publishes(before, payload@).push(p@));
            assert(publishes(before.push(t@), payload@) =~= publishes(before, payload@).push(p@));
        }
        i += 1;
    }
    assert(all.take(i as int) =~= all);
    out
}

/// Whether `t` is among `seen`.
fn holds(seen: &Vec<&str>, t: &str) -> (r: bool)
    ensures
        r == seen@.map_values(|x: &str| x@).contains(t@),
{
    let ghost all = seen@.map_values(|x: &str| x@);
    let mut i: usize = 0;
    while i < seen.len()
        invariant
            i <= seen@.len(),
            all == seen@.map_values(|x: &str| x@),
            forall|j: int| 0 <= j < i ==> all[j] != t@,
        decreases seen@.len() - i,
    {
        if same(seen[i], t) {
            assert(all[i as int] == t@);
            return true;
        }
        i += 1;
    }
    false
}

/// One topic filter of a SUBSCRIBE, and the quality of service asked for.
pub struct Filter {
    pub topic: Seq<char>,
    pub qos: u8,
}

/// The filters of a SUBSCRIBE from `at` on, up to `end`, or to where none can be read.
pub open spec fn filters(data: Seq<u8>, at: nat, end: nat) -> Seq<Filter>
    decreases data.len() - at,
{
    if at >= end || at > data.len() {
        Seq::empty()
    } else {
        let rest = data.skip(at as int);
        match string_field(rest) {
            None => Seq::empty(),
            Some(topic) => {
                let q = at + 2 + field(rest)->0.len();
                if q < data.len() {
                    seq![Filter { topic, qos: data[q as int] & 0x03 }] + filters(data, q + 1, end)
                } else {
                    Seq::empty()
                }
            },
        }
    }
}

/// The identifier and filters of a SUBSCRIBE; `None` if it is too short to hold an identifier.
pub open spec fn subscribe_of(frame: Seq<u8>) -> Option<(u16, Seq<Filter>)> {
    match varint(frame.skip(1), 4) {
        None => None,
        Some((len, n)) => if frame.len() < 1 + n + 2 {
            None
        } else {
            Some(
                (
                    (frame[1 + n as int] * 256 + frame[2 + n as int]) as u16,
                    filters(frame, 1 + n + 2, 1 + n + len),
                ),
            )
        },
    }
}

/// The return codes for `fs`: the quality asked for, or a refusal.
pub open spec fn codes(fs: Seq<Filter>) -> Seq<u8> {
    fs.map_values(
        |f: Filter|
            if concrete(f.topic) {
                f.qos
            } else {
                SUBACK_FAILURE
            },
    )
}

/// The topics that `fs` subscribes to, in order.
pub open spec fn accepted(fs: Seq<Filter>) -> Seq<Seq<char>>
    decreases fs.len(),
{
    if fs.len() == 0 {
        Seq::empty()
    } else if concrete(fs.last().topic) {
        accepted(fs.drop_last()).push(fs.last().topic)
    } else {
        accepted(fs.drop_last())
    }
}

/// Those of `topics` that are not among `known`, in order.
pub open spec fn unknown_of(topics: Seq<Seq<char>>, known: Seq<Seq<char>>) -> Seq<Seq<char>>
    decreases topics.len(),
{
    if topics.len() == 0 {
        Seq::empty()
    } else if known.contains(topics.last()) {
        unknown_of(topics.drop_last(), known)
    } else {
        unknown_of(topics.drop_last(), known).push(topics.last())
    }
}

/// What the session does about a frame, or about the answer to a CONNECT.
pub enum Reaction {
    /// Nothing.
    Ignore,
    /// The socket is closed and nothing is written.
    End,
    /// The packet is sent and the socket closed.
    Refuse(Vec<u8>),
    /// The token (if any) is to be authenticated, and [`MqttSession::on_authenticated`] told.
    Authenticate(Option<String>),
    /// The packet is sent.
    Reply(Vec<u8>),
    /// The SUBACK is sent, and then a fresh `SyncComplete` on the topics that are new: anything
    /// broadcast before this subscription had nowhere to go.
    Subscribed { suback: Vec<u8>, fresh: Vec<String> },
}

/// [`Reaction`] with packets as bytes and texts as characters.
pub enum ReactionView {
    Ignore,
    End,
    Refuse(Seq<u8>),
    Authenticate(Option<Seq<char>>),
    Reply(Seq<u8>),
    Subscribed { suback: Seq<u8>, fresh: Seq<Seq<char>> },
}

impl View for Reaction {
    type V = ReactionView;

    open spec fn view(&self) -> ReactionView {
        match self {
            Reaction::Ignore => ReactionView::Ignore,
            Reaction::End => ReactionView::End,
            Reaction::Refuse(p) => ReactionView::Refuse(p@),
            Reaction::Authenticate(t) => ReactionView::Authenticate(crate::text::text_of(*t)),
            Reaction::Reply(p) => ReactionView::Reply(p@),
            Reaction::Subscribed { suback, fresh } => ReactionView::Subscribed {
                suback: suback@,
                fresh: crate::text::texts(fresh@),
            },
        }
    }
}

/// The session of one client: whether it has been accepted, for whom, and what it subscribed to.
pub struct MqttSession {
    pub connected: bool,
    pub user_id: String,
    pub subscriptions: Vec<String>,
    /// Whether notifications may still come.
    pub notifications_open: bool,
}

/// [`MqttSession`] with its texts as characters.
pub struct MqttSessionView {
    pub connected: bool,
    pub user: Seq<char>,
    pub subscriptions: Seq<Seq<char>>,
    pub notifications_open: bool,
}

impl View for MqttSession {
    type V = MqttSessionView;

    open spec fn view(&self) -> MqttSessionView {
        MqttSessionView {
            connected: self.connected,
            user: self.user_id@,
            subscriptions: crate::text::texts(self.subscriptions@),
            notifications_open: self.notifications_open,
        }
    }
}

/// The type of the packet in a frame.
pub open spec fn frame_type(frame: Seq<u8>) -> Option<PacketType> {
    if frame.len() == 0 {
        None
    } else {
        packet_type(frame[0] / 16)
    }
}

/// What the session `s` does about a frame.
pub open spec fn reaction(s: MqttSessionView, frame: Seq<u8>) -> ReactionView {
    let connack = |code: u8| seq![0x20u8, 0x02, 0x00, code];
    match frame_type(frame) {
        Some(PacketType::Connect) => if s.connected {
            ReactionView::End
        } else {
            match body_of(frame) {
                None => ReactionView::End,
                Some(body) => match connect_of(body) {
                    Ok(token) => ReactionView::Authenticate(token),
                    Err(ConnectError::Malformed) => ReactionView::End,
                    Err(ConnectError::UnsupportedLevel) => ReactionView::Refuse(connack(1)),
                },
            }
        },
        t => if !s.connected {
            ReactionView::End
        } else {
            match t {
                Some(PacketType::Subscribe) => match subscribe_of(frame) {
                    None => ReactionView::Ignore,
                    Some((id, fs)) => ReactionView::Subscribed {
                        suback: suback(id, codes(fs)),
                        fresh: unknown_of(accepted(fs), s.subscriptions),
                    },
                },
                Some(PacketType::Pingreq) => ReactionView::Reply(seq![0xD0u8, 0x00]),
                Some(PacketType::Disconnect) => ReactionView::End,
                _ => ReactionView::Ignore,
            }
        },
    }
}

/// The subscriptions of the session `s` after a frame.
pub open spec fn subscriptions_after(s: MqttSessionView, frame: Seq<u8>) -> Seq<Seq<char>> {
    if s.connected && frame_type(frame) == Some(PacketType::Subscribe) {
        match subscribe_of(frame) {
            Some((_, fs)) => s.subscriptions + accepted(fs),
            None => s.subscriptions,
        }
    } else {
        s.subscriptions
    }
}

impl MqttSession {
    /// What every session keeps: it is subscribed to concrete topics only, none longer than its
    /// two-byte length can say, and to none before it is connected.
    pub open spec fn wf(&self) -> bool {
        &&& forall|i: int|
            0 <= i < self.subscriptions@.len() ==> concrete(#[trigger] self.subscriptions@[i]@)
                && encode_utf8(self.subscriptions@[i]@).len() <= 65535
        &&& !self.connected ==> self.subscriptions@.len() == 0
    }

    /// A session before its CONNECT.
    pub fn new() -> (r: Self)
        ensures
            r.wf(),
            r@ == (MqttSessionView {
                connected: false,
                user: Seq::empty(),
                subscriptions: Seq::empty(),
                notifications_open: true,
            }),
    {
        let r = MqttSession {
            connected: false,
            user_id: String::new(),
            subscriptions: Vec::new(),
            notifications_open: true,
        };
        assert(r@.subscriptions =~= Seq::empty());
        r
    }

    /// What to do about a binary frame. The first packet must be a well-formed CONNECT: anything
    /// else closes the socket without a CONNACK. A CONNECT is checked field by field before any
    /// token is looked at.
    pub fn on_frame(&mut self, frame: &[u8]) -> (r: Reaction)
        requires
            old(self).wf(),
        ensures
            final(self).wf(),
            r@ == reaction(old(self)@, frame@),
            final(self)@ == (MqttSessionView {
                subscriptions: subscriptions_after(old(self)@, frame@),
                ..old(self)@
            }),
            r matches Reaction::Subscribed { fresh, .. } ==> forall|i: int|
                0 <= i < fresh@.len() ==> concrete(#[trigger] fresh@[i]@) && encode_utf8(
                    fresh@[i]@,
                ).len() <= 65535,
    {
        let kind = if frame.len() == 0 {
            None
        } else {
            match PacketType::try_from(frame[0] / 16) {
                Ok(t) => Some(t),
                Err(()) => None,
            }
        };
        let kind = match kind {
            Some(PacketType::Connect) => {
                if self.connected {
                    return Reaction::End;
                }
                return match packet_body(frame) {
                    None => Reaction::End,
                    Some(body) => match connect_token(body) {
                        Ok(token) => Reaction::Authenticate(token),
                        Err(ConnectError::Malformed) => Reaction::End,
                        Err(ConnectError::UnsupportedLevel) => Reaction::Refuse(
                            build_connack(false, 1),
                        ),
                    },
                };
            },
            other => other,
        };
        if !self.connected {
            return Reaction::End;
        }
        match kind {
            Some(PacketType::Subscribe) => self.subscribe(frame),
            Some(PacketType::Pingreq) => Reaction::Reply(build_pingresp()),
            Some(PacketType::Disconnect) => Reaction::End,
            _ => Reaction::Ignore,
        }
    }

    /// A SUBSCRIBE: its topics are added, and answered.
    fn subscribe(&mut self, frame: &[u8]) -> (r: Reaction)
        requires
            old(self).wf(),
            old(self).connected,
            frame@.len() > 0,
        ensures
            final(self).wf(),
            match subscribe_of(frame@) {
                None => r@ == ReactionView::Ignore && final(self)@ == old(self)@,
                Some((id, fs)) => {
                    &&& r@ == (ReactionView::Subscribed {
                        suback: suback(id, codes(fs)),
                        fresh: unknown_of(accepted(fs), old(self)@.subscriptions),
                    })
                    &&& final(self)@ == (MqttSessionView {
                        subscriptions: old(self)@.subscriptions + accepted(fs),
                        ..old(self)@
                    })
                },
            },
            r matches Reaction::Subscribed { fresh, .. } ==> forall|i: int|
                0 <= i < fresh@.len() ==> concrete(#[trigger] fresh@[i]@) && encode_utf8(
                    fresh@[i]@,
                ).len() <= 65535,
    {
        let rest = slice_subrange(frame, 1, frame.len());
        assert(rest@ =~= frame@.skip(1));
        let (len, n) = match parse_remaining_length(rest) {
            Some((len, n)) => (len, n),
            None => {
                return Reaction::Ignore;
            },
        };
        let start: usize = 1 + n;
        if frame.len() - start < 2 {
            return Reaction::Ignore;
        }
        let packet_id: u16 = frame[start] as u16 * 256 + frame[start + 1] as u16;
        let known: usize = self.subscriptions.len();
        let ghost known_texts = crate::text::texts(self.subscriptions@);
        let mut results: Vec<u8> = Vec::new();
        let mut fresh: Vec<String> = Vec::new();
        let mut at: usize = start + 2;
        let ghost end: nat = (start + len) as nat;
        let ghost all = filters(frame@, at as nat, end);
        let ghost mut done: Seq<Filter> = Seq::empty();
        assert(done + all =~= all);
        assert(codes(done) =~= results@);
        assert(crate::text::texts(fresh@) =~= Seq::empty());
        assert(known_texts + accepted(done) =~= known_texts);
        while at < start + len
            invariant_except_break
                all == done + filters(frame@, at as nat, end),
            invariant
                at <= frame@.len(),
                end == start + len,
                start <= 5,
                len <= 268_435_455,
                self.connected,
                self.wf(),
                self.user_id == old(self).user_id,
                self.notifications_open == old(self).notifications_open,
                known_texts == crate::text::texts(old(self).subscriptions@),
                known == old(self).subscriptions@.len(),
                known <= self.subscriptions@.len(),
                self.subscriptions@.take(known as int) == old(self).subscriptions@,
                results@ == codes(done),
                results@.len() + 2 <= at,
                self@.subscriptions == known_texts + accepted(done),
                crate::text::texts(fresh@) == unknown_of(accepted(done), known_texts),
                forall|i: int|
                    0 <= i < fresh@.len() ==> concrete(#[trigger] fresh@[i]@) && encode_utf8(
                        fresh@[i]@,
                    ).len() <= 65535,
            ensures
                done == all,
            decreases frame@.len() - at,
        {
            let tail = slice_subrange(frame, at, frame.len());
            assert(tail@ =~= frame@.skip(at as int));
            let (topic, topic_len) = match parse_mqtt_string(tail) {
                Some((t, l)) => (t, l),
                None => {
                    assert(done + Seq::<Filter>::empty() =~= done);
                    break;
                },
            };
            let q: usize = at + topic_len;
            if q >= frame.len() {
                assert(done + Seq::<Filter>::empty() =~= done);
                break;
            }
            let qos: u8 = frame[q] & 0x03;
            let ghost f = Filter { topic: topic@, qos };
            let ghost before = done;
            proof {
                done = done.push(f);
                assert(done.drop_last() =~= before);
                assert(before + (seq![f] + filters(frame@, (q + 1) as nat, end)) =~= done + filters(
                    frame@,
                    (q + 1) as nat,
                    end,
                ));
            }
            if is_concrete(topic) {
                let ghost topics = accepted(before);
                assert(topics.push(topic@).drop_last() =~= topics);
                if !holds_text(&self.subscriptions, known, topic) {
                    let ghost was = crate::text::texts(fresh@);
                    fresh.push(topic.to_owned());
                    assert(crate::text::texts(fresh@) =~= was.push(topic@));
                }
                let ghost was = self@.subscriptions;
                let ghost list = self.subscriptions@;
                self.subscriptions.push(topic.to_owned());
                assert(self@.subscriptions =~= was.push(topic@));
                assert(self.subscriptions@.take(known as int) =~= list.take(known as int));
                assert(known_texts + accepted(done) =~= (known_texts + topics).push(topic@));
                results.push(qos);
            } else {
                results.push(SUBACK_FAILURE);
            }
            assert(codes(done) =~= results@);
            at = q + 1;
        }
        proof {
            if !(at < start + len) {
                assert(done + Seq::<Filter>::empty() =~= done);
            }
        }
        let suback = build_suback(packet_id, results.as_slice());
        Reaction::Subscribed { suback, fresh }
    }

    /// What to do once a CONNECT's token was looked at: `user` is whom it authenticates, if
    /// anyone.
    pub fn on_authenticated(&mut self, user: Option<String>) -> (r: Reaction)
        requires
            old(self).wf(),
        ensures
            final(self).wf(),
            match user {
                None => r@ == ReactionView::Refuse(seq![0x20u8, 0x02, 0x00, 5]) && final(self)@
                    == old(self)@,
                Some(u) => r@ == ReactionView::Reply(seq![0x20u8, 0x02, 0x00, 0]) && final(self)@
                    == (MqttSessionView { connected: true, user: u@, ..old(self)@ }),
            },
    {
        match user {
            None => Reaction::Refuse(build_connack(false, 5)),
            Some(u) => {
                self.user_id = u;
                self.connected = true;
                Reaction::Reply(build_connack(false, 0))
            },
        }
    }

    /// The packets to send for a notification, whose JSON is `payload`: none before the CONNECT.
    pub fn on_notification(&self, msg: &WsMessage, payload: &[u8]) -> (r: Vec<Vec<u8>>)
        requires
            self.wf(),
            payload@.len() + 65539 <= usize::MAX,
        ensures
            packets(r@) == (if self@.connected && forwarded(msg@.attributes, self@.user) {
                publishes(topics_of(self@.subscriptions), payload@)
            } else {
                Seq::empty()
            }),
    {
        if !self.connected {
            let none: Vec<Vec<u8>> = Vec::new();
            assert(packets(none@) =~= Seq::empty());
            return none;
        }
        notification_publishes(msg, payload, &self.subscriptions, self.user_id.as_str())
    }

    /// No notification will come any more: the session goes on without.
    pub fn on_notifications_ended(&mut self)
        requires
            old(self).wf(),
        ensures
            final(self).wf(),
            final(self)@ == (MqttSessionView { notifications_open: false, ..old(self)@ }),
    {
        self.notifications_open = false;
    }

    /// Whether the socket is closed when the time for a CONNECT has passed.
    pub fn on_deadline(&self) -> (r: bool)
        ensures
            r == !self@.connected,
    {
        !self.connected
    }
}

/// Whether `t` is among the first `n` of `list`.
fn holds_text(list: &Vec<String>, n: usize, t: &str) -> (r: bool)
    requires
        n <= list@.len(),
    ensures
        r == crate::text::texts(list@.take(n as int)).contains(t@),
{
    let ghost all = crate::text::texts(list@.take(n as int));
    let mut i: usize = 0;
    while i < n
        invariant
            i <= n <= list@.len(),
            all == crate::text::texts(list@.take(n as int)),
            forall|j: int| 0 <= j < i ==> all[j] != t@,
        decreases n - i,
    {
        if same(list[i].as_str(), t) {
            assert(all[i as int] == t@);
            return true;
        }
        i += 1;
    }
    false
}

/// How long an encoded number is.
proof fn lemma_varint_bytes_len(n: nat)
    requires
        n <= 268_435_455,
    ensures
        1 <= varint_bytes(n).len() <= 4,
        n < 128 <==> varint_bytes(n).len() == 1,
{
    reveal_with_fuel(varint_bytes, 5);
}

/// A number written in the variable-length encoding reads back as itself, whatever follows it;
/// `most` bytes are enough for it.
proof fn lemma_varint_round_trip(n: nat, rest: Seq<u8>, most: nat, bound: nat)
    requires
        n < bound,
        bound == (if most == 1 {
            128nat
        } else if most == 2 {
            16384
        } else if most == 3 {
            2097152
        } else {
            268435456
        }),
        1 <= most <= 4,
    ensures
        varint(varint_bytes(n) + rest, most) == Some((n, varint_bytes(n).len())),
    decreases most,
{
    let b = varint_bytes(n);
    if n < 128 {
        assert((b + rest)[0] == n as u8);
    } else {
        lemma_varint_round_trip(
            n / 128,
            rest,
            (most - 1) as nat,
            if most == 2 {
                128
            } else if most == 3 {
                16384
            } else {
                2097152
            },
        );
        let tail = varint_bytes(n / 128);
        assert((b + rest)[0] == (n % 128 + 128) as u8);
        assert((b + rest).drop_first() =~= tail + rest);
    }
}

/// Every length that four bytes can tell is told in one to four bytes, and reads back as itself,
/// whatever follows it.
pub proof fn law_remaining_length_round_trips(n: nat, rest: Seq<u8>)
    requires
        n <= 268_435_455,
    ensures
        1 <= varint_bytes(n).len() <= 4,
        varint(varint_bytes(n) + rest, 4) == Some((n, varint_bytes(n).len())),
{
    lemma_varint_bytes_len(n);
    lemma_varint_round_trip(n, rest, 4, 268435456);
}

/// A packet framed with its length reads back as its body.
proof fn lemma_framed(first: u8, body: Seq<u8>)
    requires
        body.len() <= 268_435_455,
    ensures
        body_of(seq![first] + varint_bytes(body.len()) + body) == Some(body),
{
    let frame = seq![first] + varint_bytes(body.len()) + body;
    assert(frame.skip(1) =~= varint_bytes(body.len()) + body);
    law_remaining_length_round_trips(body.len(), body);
    assert(frame.skip(1 + varint_bytes(body.len()).len() as int) =~= body);
}

/// A PUBLISH reads back: its first byte tells its quality of service, and its body is the topic after
/// its length, the packet's identifier where the quality has it carry one, and the payload.
pub proof fn law_publish_reads_back(
    topic: Seq<char>,
    payload: Seq<u8>,
    qos: u8,
    packet_id: Option<u16>,
)
    requires
        qos <= 2,
        packet_id is Some <==> qos > 0,
        encode_utf8(topic).len() <= 65535,
        (if qos > 0 {
            4nat
        } else {
            2nat
        }) + encode_utf8(topic).len() + payload.len() <= 268_435_455,
    ensures
        ({
            let packet = publish(encode_utf8(topic), payload, qos, packet_id);
            let n = 2 + encode_utf8(topic).len() as int;
            &&& frame_type(packet) == Some(PacketType::Publish)
            &&& packet[0] / 2 % 4 == qos
            &&& body_of(packet) matches Some(body) && string_field(body) == Some(topic) && (
            match packet_id {
                None => body.skip(n) == payload,
                Some(id) => body[n] as int * 256 + body[n + 1] as int == id && body.skip(n + 2)
                    == payload,
            })
        }),
{
    let t = encode_utf8(topic);
    let id = match packet_id {
        Some(id) => seq![(id / 256) as u8, (id % 256) as u8],
        None => seq![],
    };
    let first = 0x30u8 | (qos << 1);
    let body = seq![(t.len() / 256 % 256) as u8, (t.len() % 256) as u8] + t + id + payload;
    let packet = publish(t, payload, qos, packet_id);
    assert(qos <= 2 ==> 0x30u8 | (qos << 1) == 0x30 + 2 * qos) by (bit_vector);
    assert(first / 16 == 3 && first / 2 % 4 == qos);
    assert(packet =~= seq![first] + varint_bytes(body.len()) + body);
    lemma_framed(first, body);
    assert(body.subrange(2, 2 + t.len() as int) =~= t);
    encode_utf8_valid_utf8(topic);
    encode_utf8_decode_utf8(topic);
    let n = 2 + t.len() as int;
    match packet_id {
        None => assert(body.skip(n) =~= payload),
        Some(_) => assert(body.skip(n + 2) =~= payload),
    }
}

/// A SUBACK reads back: its body is the packet's identifier and the return codes.
pub proof fn law_suback_reads_back(packet_id: u16, codes: Seq<u8>)
    requires
        2 + codes.len() <= 268_435_455,
    ensures
        frame_type(suback(packet_id, codes)) == Some(PacketType::Suback),
        body_of(suback(packet_id, codes)) == Some(
            seq![(packet_id / 256) as u8, (packet_id % 256) as u8] + codes,
        ),
{
    let body = seq![(packet_id / 256) as u8, (packet_id % 256) as u8] + codes;
    assert(suback(packet_id, codes) =~= seq![0x90u8] + varint_bytes(body.len()) + body);
    lemma_framed(0x90, body);
}

/// Before its CONNECT is accepted a session writes nothing but a refusal of it: any other packet,
/// and a malformed CONNECT, ends it in silence.
pub proof fn law_nothing_is_served_before_connect(s: MqttSessionView, frame: Seq<u8>)
    requires
        !s.connected,
    ensures
        match reaction(s, frame) {
            ReactionView::End => true,
            ReactionView::Refuse(p) => p == seq![0x20u8, 0x02, 0x00, 1],
            ReactionView::Authenticate(_) => frame_type(frame) == Some(PacketType::Connect),
            _ => false,
        },
        subscriptions_after(s, frame) == s.subscriptions,
{
}

/// A token is looked at only for a frame that is one well-formed CONNECT.
pub proof fn law_only_a_conforming_connect_authenticates(s: MqttSessionView, frame: Seq<u8>)
    requires
        reaction(s, frame) is Authenticate,
    ensures
        !s.connected,
        frame_type(frame) == Some(PacketType::Connect),
        body_of(frame) matches Some(body) && connect_of(body) matches Ok(t) && reaction(s, frame)
            == ReactionView::Authenticate(t),
{
}

/// The topics of [`topics_of`] are concrete, all from among the filters, and no two are equal; a
/// concrete filter is among them.
pub proof fn law_topics_are_concrete_and_distinct(filters: Seq<Seq<char>>)
    ensures
        forall|i: int|
            0 <= i < topics_of(filters).len() ==> concrete(#[trigger] topics_of(filters)[i])
                && filters.contains(topics_of(filters)[i]),
        forall|i: int, j: int|
            0 <= i < j < topics_of(filters).len() ==> topics_of(filters)[i] != topics_of(
                filters,
            )[j],
        forall|i: int|
            0 <= i < filters.len() && concrete(#[trigger] filters[i]) ==> topics_of(
                filters,
            ).contains(filters[i]),
    decreases filters.len(),
{
    if filters.len() > 0 {
        let rest = filters.drop_last();
        let before = topics_of(rest);
        let all = topics_of(filters);
        law_topics_are_concrete_and_distinct(rest);
        assert forall|i: int| 0 <= i < all.len() implies concrete(#[trigger] all[i])
            && filters.contains(all[i]) by {
            if i < before.len() {
                assert(all[i] == before[i]);
                assert(rest.contains(before[i]));
                let k = choose|k: int| 0 <= k < rest.len() && rest[k] == before[i];
                assert(filters[k] == all[i]);
            } else {
                assert(filters[filters.len() - 1] == all[i]);
            }
        }
        assert forall|i: int, j: int| 0 <= i < j < all.len() implies all[i] != all[j] by {
            if j >= before.len() {
                assert(before.contains(all[i])) by {
                    assert(before[i] == all[i]);
                }
            }
        }
        assert forall|i: int| 0 <= i < filters.len() && concrete(#[trigger] filters[i]) implies all.contains(
            filters[i],
        ) by {
            if i < rest.len() {
                assert(rest[i] == filters[i]);
                assert(before.contains(rest[i]));
                let k = choose|k: int| 0 <= k < before.len() && before[k] == rest[i];
                assert(all[k] == filters[i]);
            } else if !before.contains(filters.last()) {
                assert(all[all.len() - 1] == filters.last());
            } else {
                let k = choose|k: int| 0 <= k < before.len() && before[k] == filters.last();
                assert(all[k] == filters[i]);
            }
        }
    }
}

/// A session is sent an event only if it is its own user's or the server's, and none of screen
/// sharing.
pub proof fn law_only_own_events_are_forwarded(
    a: crate::notifications::AttributesView,
    user: Seq<char>,
)
    requires
        forwarded(a, user),
    ensures
        a.auth0_user_id == user || a.auth0_user_id == SERVER_USER@,
        !"Screenshare"@.is_prefix_of(a.event),
{
}

/// Notification message for MQTT publish
#[derive(Debug)]
pub struct NotificationMessage {
    pub message_type: String,
    pub source_device_id: Option<String>,
    pub generation: Option<u64>,
}

impl NotificationMessage {
    pub fn sync_complete(generation: u64, source_device_id: Option<String>) -> (r: Self)
        ensures
            r.message_type@ == "sync-complete"@,
            r.source_device_id == source_device_id,
            r.generation == Some(generation),
    {
        NotificationMessage {
            message_type: "sync-complete".to_owned(),
            source_device_id,
            generation: Some(generation),
        }
    }
}

/// A text as a field: its length in two bytes, the higher one first, and its UTF-8.
pub open spec fn text_field(s: Seq<char>) -> Seq<u8> {
    bytes_field(encode_utf8(s))
}

/// Bytes as a field: their number in two bytes, the higher one first, and the bytes.
pub open spec fn bytes_field(b: Seq<u8>) -> Seq<u8> {
    seq![(b.len() / 256) as u8, (b.len() % 256) as u8] + b
}

/// The payload of a SUBSCRIBE: each topic as a field, and the quality of service after it.
pub open spec fn filter_list(list: Seq<Filter>) -> Seq<u8>
    decreases list.len(),
{
    if list.len() == 0 {
        Seq::empty()
    } else {
        text_field(list[0].topic) + seq![list[0].qos] + filter_list(list.drop_first())
    }
}

/// A SUBSCRIBE for a list of filters.
pub open spec fn subscribe_packet(packet_id: u16, list: Seq<Filter>) -> Seq<u8> {
    seq![0x82u8] + varint_bytes(2 + filter_list(list).len()) + seq![
        (packet_id / 256) as u8,
        (packet_id % 256) as u8,
    ] + filter_list(list)
}

/// A field reads back, whatever follows it.
proof fn lemma_field_reads_back(b: Seq<u8>, rest: Seq<u8>)
    requires
        b.len() <= 65535,
    ensures
        field(bytes_field(b) + rest) == Some(b),
        (bytes_field(b) + rest).skip(2 + b.len() as int) == rest,
{
    let data = bytes_field(b) + rest;
    assert(data[0] == b.len() / 256);
    assert(data[1] == b.len() % 256);
    assert(data[0] * 256 + data[1] == b.len());
    assert(data.subrange(2, 2 + b.len() as int) =~= b);
    assert(data.skip(2 + b.len() as int) =~= rest);
}

proof fn lemma_filter_list_len(list: Seq<Filter>)
    ensures
        filter_list(list).len() >= 3 * list.len(),
    decreases list.len(),
{
    if list.len() > 0 {
        lemma_filter_list_len(list.drop_first());
    }
}

proof fn lemma_filters_read_back(data: Seq<u8>, at: nat, list: Seq<Filter>)
    requires
        at <= data.len(),
        data.skip(at as int) == filter_list(list),
        forall|i: int|
            0 <= i < list.len() ==> encode_utf8((#[trigger] list[i]).topic).len() <= 65535
                && list[i].qos <= 2,
    ensures
        filters(data, at, data.len()) == list,
    decreases list.len(),
{
    let rest = data.skip(at as int);
    if list.len() == 0 {
        assert(rest.len() == 0);
        assert(filters(data, at, data.len()) =~= list);
    } else {
        let first = list[0];
        let t = encode_utf8(first.topic);
        let tail = filter_list(list.drop_first());
        let after = seq![first.qos] + tail;
        assert(rest =~= bytes_field(t) + after);
        lemma_field_reads_back(t, after);
        encode_utf8_valid_utf8(first.topic);
        encode_utf8_decode_utf8(first.topic);
        assert(string_field(rest) == Some(first.topic));
        let q = at + 2 + t.len();
        assert(rest.len() == 2 + t.len() + 1 + tail.len());
        assert(data[q as int] == rest[2 + t.len() as int]);
        assert(data[q as int] == first.qos);
        let qos = first.qos;
        assert(qos <= 2 ==> qos & 0x03u8 == qos) by (bit_vector);
        assert(rest.skip(2 + t.len() as int).skip(1) =~= tail);
        assert(data.skip(q as int + 1) =~= rest.skip(2 + t.len() as int).skip(1));
        assert forall|i: int| 0 <= i < list.drop_first().len() implies encode_utf8(
            (#[trigger] list.drop_first()[i]).topic,
        ).len() <= 65535 && list.drop_first()[i].qos <= 2 by {
            assert(list.drop_first()[i] == list[i + 1]);
        }
        lemma_filters_read_back(data, q + 1, list.drop_first());
        assert(filters(data, at, data.len()) == seq![Filter { topic: first.topic, qos }] + filters(
            data,
            q + 1,
            data.len(),
        ));
        assert(filters(data, at, data.len()) =~= list);
    }
}

/// Only whole topics can be subscribed to: a filter is concrete exactly where it is not empty and
/// holds no wildcard.
pub proof fn law_wildcards_are_not_concrete(filter: Seq<char>)
    ensures
        concrete(filter) <==> {
            &&& filter.len() > 0
            &&& forall|i: int| 0 <= i < filter.len() ==> #[trigger] filter[i] != '+'
            &&& forall|i: int| 0 <= i < filter.len() ==> #[trigger] filter[i] != '#'
        },
{
    if filter.contains('+') {
        let i = choose|i: int| 0 <= i < filter.len() && filter[i] == '+';
        assert(filter[i] == '+');
    }
    if filter.contains('#') {
        let i = choose|i: int| 0 <= i < filter.len() && filter[i] == '#';
        assert(filter[i] == '#');
    }
}

/// What is accepted of a list are its concrete topics, one for each filter that has one.
proof fn lemma_accepted(fs: Seq<Filter>, topic: Seq<char>)
    ensures
        accepted(fs).contains(topic) <==> concrete(topic) && exists|i: int|
            0 <= i < fs.len() && (#[trigger] fs[i]).topic == topic,
    decreases fs.len(),
{
    if fs.len() > 0 {
        let rest = fs.drop_last();
        lemma_accepted(rest, topic);
        let before = accepted(rest);
        let last = fs.last().topic;
        assert(fs[fs.len() - 1].topic == last);
        if before.contains(topic) {
            let i = choose|i: int| 0 <= i < before.len() && before[i] == topic;
            assert(before.push(last)[i] == topic);
            let j = choose|j: int| 0 <= j < rest.len() && (#[trigger] rest[j]).topic == topic;
            assert(fs[j].topic == topic);
        }
        assert(before.push(last)[before.len() as int] == last);
        if accepted(fs).contains(topic) {
            let i = choose|i: int| 0 <= i < accepted(fs).len() && accepted(fs)[i] == topic;
            if i < before.len() {
                assert(before[i] == topic);
                assert(before.contains(topic));
            }
        }
        if exists|i: int| 0 <= i < fs.len() && (#[trigger] fs[i]).topic == topic {
            let i = choose|i: int| 0 <= i < fs.len() && (#[trigger] fs[i]).topic == topic;
            if i < rest.len() {
                assert(rest[i].topic == topic);
            }
        }
    }
}

proof fn lemma_unknown_of(topics: Seq<Seq<char>>, known: Seq<Seq<char>>, topic: Seq<char>)
    ensures
        unknown_of(topics, known).contains(topic) <==> topics.contains(topic) && !known.contains(
            topic,
        ),
    decreases topics.len(),
{
    if topics.len() > 0 {
        let rest = topics.drop_last();
        lemma_unknown_of(rest, known, topic);
        let before = unknown_of(rest, known);
        let last = topics.last();
        assert(topics[topics.len() - 1] == last);
        assert(before.push(last)[before.len() as int] == last);
        if before.contains(topic) {
            let i = choose|i: int| 0 <= i < before.len() && before[i] == topic;
            assert(before.push(last)[i] == topic);
        }
        if rest.contains(topic) {
            let i = choose|i: int| 0 <= i < rest.len() && rest[i] == topic;
            assert(topics[i] == topic);
        }
        if topics.contains(topic) && topic != last {
            let i = choose|i: int| 0 <= i < topics.len() && topics[i] == topic;
            assert(rest[i] == topic);
        }
        if before.push(last).contains(topic) && topic != last {
            let i = choose|i: int| 0 <= i < before.push(last).len() && before.push(last)[i] == topic;
            assert(before[i] == topic);
        }
    }
}

/// A SUBSCRIBE reads back: the identifier and every filter of the list, in order, are what the
/// frame that carries them is read as.
pub proof fn law_subscribe_reads_back(packet_id: u16, list: Seq<Filter>)
    requires
        forall|i: int|
            0 <= i < list.len() ==> encode_utf8((#[trigger] list[i]).topic).len() <= 65535
                && list[i].qos <= 2,
        2 + filter_list(list).len() <= 268_435_455,
    ensures
        frame_type(subscribe_packet(packet_id, list)) == Some(PacketType::Subscribe),
        subscribe_of(subscribe_packet(packet_id, list)) == Some((packet_id, list)),
{
    let payload = filter_list(list);
    let body = seq![(packet_id / 256) as u8, (packet_id % 256) as u8] + payload;
    let frame = subscribe_packet(packet_id, list);
    let n = varint_bytes(body.len()).len();
    law_remaining_length_round_trips(body.len(), body);
    assert(body.len() == 2 + payload.len());
    assert(frame.skip(1) =~= varint_bytes(body.len()) + body);
    assert(frame[0] == 0x82);
    assert(frame[1 + n as int] == (packet_id / 256) as u8);
    assert(frame[2 + n as int] == (packet_id % 256) as u8);
    assert(frame.skip(1 + n as int + 2) =~= payload);
    lemma_filters_read_back(frame, 1 + n + 2, list);
    assert(frame.len() == 1 + n + body.len());
}

/// Subscribing serves the whole list: a connected session answers with one return code for each
/// filter, in order, its quality of service or a failure where it is empty or holds a wildcard;
/// every other topic of the list is subscribed to, nothing else is, and what was subscribed
/// before stays. Topics that are new are fresh.
pub proof fn law_every_topic_of_a_subscribe_is_served(
    s: MqttSessionView,
    packet_id: u16,
    list: Seq<Filter>,
)
    requires
        s.connected,
        forall|i: int|
            0 <= i < list.len() ==> encode_utf8((#[trigger] list[i]).topic).len() <= 65535
                && list[i].qos <= 2,
        2 + filter_list(list).len() <= 268_435_455,
    ensures
        ({
            let frame = subscribe_packet(packet_id, list);
            let after = subscriptions_after(s, frame);
            &&& reaction(s, frame) matches ReactionView::Subscribed { suback, fresh } && {
                &&& frame_type(suback) == Some(PacketType::Suback)
                &&& body_of(suback) matches Some(b) && {
                    &&& b.len() == 2 + list.len()
                    &&& b[0] as int * 256 + b[1] as int == packet_id
                    &&& forall|i: int|
                        0 <= i < list.len() ==> b[2 + i] == (if (#[trigger] list[i]).topic.len() > 0
                            && !list[i].topic.contains('+') && !list[i].topic.contains('#') {
                            list[i].qos
                        } else {
                            0x80
                        })
                }
                &&& forall|t: Seq<char>| #[trigger]
                    fresh.contains(t) <==> after.contains(t) && !s.subscriptions.contains(t)
            }
            &&& forall|i: int|
                0 <= i < list.len() && (#[trigger] list[i]).topic.len() > 0
                    && !list[i].topic.contains('+') && !list[i].topic.contains('#')
                    ==> after.contains(list[i].topic)
            &&& s.subscriptions.is_prefix_of(after)
            &&& forall|t: Seq<char>| #[trigger]
                after.contains(t) ==> s.subscriptions.contains(t) || (t.len() > 0 && !t.contains(
                    '+',
                ) && !t.contains('#') && exists|i: int|
                    0 <= i < list.len() && (#[trigger] list[i]).topic == t)
        }),
{
    let frame = subscribe_packet(packet_id, list);
    let after = subscriptions_after(s, frame);
    law_subscribe_reads_back(packet_id, list);
    lemma_filter_list_len(list);
    let cs = codes(list);
    let packet = suback(packet_id, cs);
    let fresh = unknown_of(accepted(list), s.subscriptions);
    law_suback_reads_back(packet_id, cs);
    let b = seq![(packet_id / 256) as u8, (packet_id % 256) as u8] + cs;
    assert forall|i: int| 0 <= i < list.len() implies b[2 + i] == (if (#[trigger] list[i]).topic.len()
        > 0 && !list[i].topic.contains('+') && !list[i].topic.contains('#') {
        list[i].qos
    } else {
        0x80
    }) by {
        assert(b[2 + i] == cs[i]);
    }
    assert(after == s.subscriptions + accepted(list));
    assert(s.subscriptions =~= after.take(s.subscriptions.len() as int));
    assert forall|t: Seq<char>| #[trigger] after.contains(t) <==> s.subscriptions.contains(t)
        || accepted(list).contains(t) by {
        lemma_either(s.subscriptions, accepted(list), t);
    }
    assert forall|i: int|
        0 <= i < list.len() && (#[trigger] list[i]).topic.len() > 0 && !list[i].topic.contains('+')
            && !list[i].topic.contains('#') implies after.contains(list[i].topic) by {
        lemma_accepted(list, list[i].topic);
    }
    assert forall|t: Seq<char>| #[trigger] after.contains(t) implies s.subscriptions.contains(t) || (
    t.len() > 0 && !t.contains('+') && !t.contains('#') && exists|i: int|
        0 <= i < list.len() && (#[trigger] list[i]).topic == t) by {
        lemma_accepted(list, t);
    }
    assert forall|t: Seq<char>| #[trigger] fresh.contains(t) <==> after.contains(t)
        && !s.subscriptions.contains(t) by {
        lemma_unknown_of(accepted(list), s.subscriptions, t);
    }
}

proof fn lemma_either(a: Seq<Seq<char>>, b: Seq<Seq<char>>, t: Seq<char>)
    ensures
        (a + b).contains(t) <==> a.contains(t) || b.contains(t),
{
    let all = a + b;
    if a.contains(t) {
        let i = choose|i: int| 0 <= i < a.len() && a[i] == t;
        assert(all[i] == t);
    }
    if b.contains(t) {
        let i = choose|i: int| 0 <= i < b.len() && b[i] == t;
        assert(all[a.len() + i] == t);
    }
    if all.contains(t) {
        let i = choose|i: int| 0 <= i < all.len() && all[i] == t;
        if i < a.len() {
            assert(a[i] == t);
        } else {
            assert(b[i - a.len()] == t);
        }
    }
}

/// The remaining length is written in as few bytes as it takes, seven bits in each, the lowest
/// first; all but the last have their highest bit set.
pub proof fn law_remaining_length_bytes(a: nat, b: nat, c: nat, d: nat)
    requires
        a < 128,
        b < 128,
        c < 128,
        d < 128,
    ensures
        varint_bytes(a) == seq![a as u8],
        b > 0 ==> varint_bytes(a + 128 * b) == seq![(128 + a) as u8, b as u8],
        c > 0 ==> varint_bytes(a + 128 * b + 16_384 * c) == seq![
            (128 + a) as u8,
            (128 + b) as u8,
            c as u8,
        ],
        d > 0 ==> varint_bytes(a + 128 * b + 16_384 * c + 2_097_152 * d) == seq![
            (128 + a) as u8,
            (128 + b) as u8,
            (128 + c) as u8,
            d as u8,
        ],
{
    lemma_varint_step(a, b);
    if c > 0 {
        lemma_varint_step(b, c);
        lemma_varint_step(a, b + 128 * c);
        assert(a + 128 * (b + 128 * c) == a + 128 * b + 16_384 * c);
    }
    if d > 0 {
        lemma_varint_step(c, d);
        lemma_varint_step(b, c + 128 * d);
        lemma_varint_step(a, b + 128 * (c + 128 * d));
        assert(a + 128 * (b + 128 * (c + 128 * d)) == a + 128 * b + 16_384 * c + 2_097_152 * d);
    }
    if b > 0 {
        assert(varint_bytes(a + 128 * b) =~= seq![(128 + a) as u8, b as u8]);
    }
    if c > 0 {
        assert(varint_bytes(a + 128 * b + 16_384 * c) =~= seq![
            (128 + a) as u8,
            (128 + b) as u8,
            c as u8,
        ]);
    }
    if d > 0 {
        assert(varint_bytes(a + 128 * b + 16_384 * c + 2_097_152 * d) =~= seq![
            (128 + a) as u8,
            (128 + b) as u8,
            (128 + c) as u8,
            d as u8,
        ]);
    }
}

proof fn lemma_varint_step(low: nat, rest: nat)
    requires
        low < 128,
    ensures
        rest > 0 ==> varint_bytes(low + 128 * rest) == seq![(128 + low) as u8] + varint_bytes(rest),
        low > 0 || rest > 0 ==> varint_bytes(low) == seq![low as u8],
        rest < 128 ==> varint_bytes(rest) == seq![rest as u8],
{
    let n = low + 128 * rest;
    assert(n / 128 == rest && n % 128 == low) by (nonlinear_arith)
        requires
            low < 128,
            n == low + 128 * rest,
    ;
}

/// Fields one after the other.
pub open spec fn field_list(list: Seq<Seq<u8>>) -> Seq<u8>
    decreases list.len(),
{
    if list.len() == 0 {
        Seq::empty()
    } else {
        bytes_field(list[0]) + field_list(list.drop_first())
    }
}

proof fn lemma_fields_read_back(list: Seq<Seq<u8>>, kinds: Seq<bool>)
    requires
        kinds.len() == list.len(),
        forall|i: int|
            0 <= i < list.len() ==> (#[trigger] list[i]).len() <= 65535 && (kinds[i]
                ==> valid_utf8(list[i])),
    ensures
        fields(field_list(list), kinds) == Some(list),
    decreases list.len(),
{
    if list.len() == 0 {
        assert(list =~= Seq::empty());
    } else {
        let rest = list.drop_first();
        assert forall|i: int| 0 <= i < rest.len() implies (#[trigger] rest[i]).len() <= 65535 && (
        kinds.drop_first()[i] ==> valid_utf8(rest[i])) by {
            assert(rest[i] == list[i + 1]);
        }
        lemma_fields_read_back(rest, kinds.drop_first());
        assert(list[0].len() <= 65535 && (kinds[0] ==> valid_utf8(list[0])));
        lemma_field_reads_back(list[0], field_list(rest));
        assert(seq![list[0]] + rest =~= list);
    }
}

/// The fields of a CONNECT's payload: the client's name, a will's topic and message, a user name
/// and a password, as far as there are any.
pub open spec fn connect_fields(
    client: Seq<char>,
    will: Option<(Seq<char>, Seq<u8>)>,
    username: Option<Seq<char>>,
    password: Option<Seq<u8>>,
) -> Seq<Seq<u8>> {
    seq![encode_utf8(client)] + (match will {
        Some((topic, message)) => seq![encode_utf8(topic), message],
        None => seq![],
    }) + (match username {
        Some(u) => seq![encode_utf8(u)],
        None => seq![],
    }) + (match password {
        Some(p) => seq![p],
        None => seq![],
    })
}

/// The body of a CONNECT of a clean session, at a protocol level, that is to be kept alive for a
/// time.
pub open spec fn connect_body(
    level: u8,
    keep_alive: u16,
    client: Seq<char>,
    will: Option<(Seq<char>, Seq<u8>)>,
    username: Option<Seq<char>>,
    password: Option<Seq<u8>>,
) -> Seq<u8> {
    let flags = (if username is Some {
        0x80u8
    } else {
        0u8
    }) | (if password is Some {
        0x40u8
    } else {
        0u8
    }) | (if will is Some {
        0x04u8
    } else {
        0u8
    }) | 0x02u8;
    text_field("MQTT"@) + seq![
        level,
        flags,
        (keep_alive / 256) as u8,
        (keep_alive % 256) as u8,
    ] + field_list(connect_fields(client, will, username, password))
}

proof fn lemma_connect_body(
    level: u8,
    keep_alive: u16,
    client: Seq<char>,
    will: Option<(Seq<char>, Seq<u8>)>,
    username: Option<Seq<char>>,
    password: Option<Seq<u8>>,
)
    ensures
        ({
            let body = connect_body(level, keep_alive, client, will, username, password);
            let payload = field_list(connect_fields(client, will, username, password));
            &&& string_field(body) == Some("MQTT"@)
            &&& field(body)->0.len() == 4
            &&& body.len() >= 10
            &&& body[6] == level
            &&& body.skip(10) == payload
            &&& ({
                let flags = body[7];
                &&& flags & 0x01 == 0
                &&& flags & 0x38 == 0
                &&& (flags & 0x80 != 0) == (username is Some)
                &&& (flags & 0x40 != 0) == (password is Some)
                &&& (flags & 0x04 != 0) == (will is Some)
            })
        }),
{
    let body = connect_body(level, keep_alive, client, will, username, password);
    let payload = field_list(connect_fields(client, will, username, password));
    let m = encode_utf8("MQTT"@);
    reveal_strlit("MQTT");
    assert(is_ascii_chars("MQTT"@)) by {
        assert forall|i: int| 0 <= i < "MQTT"@.len() implies (#[trigger] "MQTT"@[i]) as int <= 127 by {}
    }
    is_ascii_chars_encode_utf8("MQTT"@);
    assert(m.len() == 4);
    let rest = body.skip(6);
    assert(body =~= bytes_field(m) + rest);
    lemma_field_reads_back(m, rest);
    encode_utf8_valid_utf8("MQTT"@);
    encode_utf8_decode_utf8("MQTT"@);
    assert(body.skip(10) =~= payload);
    let u: u8 = if username is Some {
        0x80u8
    } else {
        0u8
    };
    let p: u8 = if password is Some {
        0x40u8
    } else {
        0u8
    };
    let w: u8 = if will is Some {
        0x04u8
    } else {
        0u8
    };
    let flags: u8 = u | p | w | 0x02u8;
    assert(body[7] == flags);
    assert((u == 0 || u == 0x80) && (p == 0 || p == 0x40) && (w == 0 || w == 0x04) ==> {
        &&& (u | p | w | 0x02u8) & 0x01 == 0
        &&& (u | p | w | 0x02u8) & 0x38 == 0
        &&& (u | p | w | 0x02u8) & 0x80 == u
        &&& (u | p | w | 0x02u8) & 0x40 == p
        &&& (u | p | w | 0x02u8) & 0x04 == w
    }) by (bit_vector);
}

/// A CONNECT reads back: the credential is its password, or its user name where the password is
/// missing or empty, wherever it stands among the other fields.
pub proof fn law_connect_reads_back(
    s: MqttSessionView,
    keep_alive: u16,
    client: Seq<char>,
    will: Option<(Seq<char>, Seq<u8>)>,
    username: Option<Seq<char>>,
    password: Option<Seq<char>>,
)
    requires
        !s.connected,
        password is Some ==> username is Some,
        encode_utf8(client).len() <= 65535,
        will matches Some((topic, message)) ==> encode_utf8(topic).len() <= 65535 && message.len()
            <= 65535,
        username matches Some(u) ==> encode_utf8(u).len() <= 65535,
        password matches Some(p) ==> encode_utf8(p).len() <= 65535,
    ensures
        ({
            let secret = match password {
                Some(p) => Some(encode_utf8(p)),
                None => None,
            };
            let body = connect_body(4, keep_alive, client, will, username, secret);
            let frame = seq![0x10u8] + varint_bytes(body.len()) + body;
            &&& password is Some && password->0.len() > 0 ==> reaction(s, frame)
                == ReactionView::Authenticate(password)
            &&& password is None || password->0.len() == 0 ==> reaction(s, frame)
                == ReactionView::Authenticate(username)
        }),
{
    let secret = match password {
        Some(p) => Some(encode_utf8(p)),
        None => None,
    };
    let body = connect_body(4, keep_alive, client, will, username, secret);
    let frame = seq![0x10u8] + varint_bytes(body.len()) + body;
    lemma_connect_of(keep_alive, client, will, username, password);
    lemma_framed(0x10, body);
    assert(frame[0] == 0x10);
}

proof fn lemma_connect_of(
    keep_alive: u16,
    client: Seq<char>,
    will: Option<(Seq<char>, Seq<u8>)>,
    username: Option<Seq<char>>,
    password: Option<Seq<char>>,
)
    requires
        password is Some ==> username is Some,
        encode_utf8(client).len() <= 65535,
        will matches Some((topic, message)) ==> encode_utf8(topic).len() <= 65535 && message.len()
            <= 65535,
        username matches Some(u) ==> encode_utf8(u).len() <= 65535,
        password matches Some(p) ==> encode_utf8(p).len() <= 65535,
    ensures
        ({
            let secret = match password {
                Some(p) => Some(encode_utf8(p)),
                None => None,
            };
            let body = connect_body(4, keep_alive, client, will, username, secret);
            &&& body.len() <= 400_000
            &&& connect_of(body) == Ok::<Option<Seq<char>>, ConnectError>(
                if password is Some && password->0.len() > 0 {
                    password
                } else {
                    username
                },
            )
        }),
{
    let secret = match password {
        Some(p) => Some(encode_utf8(p)),
        None => None,
    };
    let body = connect_body(4, keep_alive, client, will, username, secret);
    let list = connect_fields(client, will, username, secret);
    lemma_connect_body(4, keep_alive, client, will, username, secret);
    lemma_connect_fields(body[7], client, will, username, secret);
    let token = credential(body[7], list);
    if let Some(u) = username {
        encode_utf8_valid_utf8(u);
        encode_utf8_decode_utf8(u);
    }
    if let Some(p) = password {
        encode_utf8_valid_utf8(p);
        encode_utf8_decode_utf8(p);
        lemma_empty_text(p);
    }
    assert(token == (if password is Some && password->0.len() > 0 {
        secret
    } else {
        match username {
            Some(u) => Some(encode_utf8(u)),
            None => None,
        }
    }));
}

proof fn lemma_connect_fields(
    flags: u8,
    client: Seq<char>,
    will: Option<(Seq<char>, Seq<u8>)>,
    username: Option<Seq<char>>,
    password: Option<Seq<u8>>,
)
    requires
        (flags & 0x80 != 0) == (username is Some),
        (flags & 0x40 != 0) == (password is Some),
        (flags & 0x04 != 0) == (will is Some),
        password is Some ==> username is Some,
        encode_utf8(client).len() <= 65535,
        will matches Some((topic, message)) ==> encode_utf8(topic).len() <= 65535 && message.len()
            <= 65535,
        username matches Some(u) ==> encode_utf8(u).len() <= 65535,
        password matches Some(p) ==> p.len() <= 65535,
    ensures
        ({
            let list = connect_fields(client, will, username, password);
            &&& fields(field_list(list), payload_kinds(flags)) == Some(list)
            &&& field_list(list).len() <= 65537 * 5
            &&& list.len() >= 1
            &&& password matches Some(p) ==> list.last() == p && list.len() >= 2 && list[list.len()
                - 2] == encode_utf8(username->0)
            &&& password is None ==> (username matches Some(u) ==> list.last() == encode_utf8(u))
        }),
{
    let list = connect_fields(client, will, username, password);
    let kinds = payload_kinds(flags);
    encode_utf8_valid_utf8(client);
    if let Some((topic, _)) = will {
        encode_utf8_valid_utf8(topic);
    }
    if let Some(u) = username {
        encode_utf8_valid_utf8(u);
    }
    assert(kinds.len() == list.len());
    assert forall|i: int| 0 <= i < list.len() implies (#[trigger] list[i]).len() <= 65535 && (
    kinds[i] ==> valid_utf8(list[i])) by {}
    lemma_fields_read_back(list, kinds);
    lemma_connect_len(list);
}

proof fn lemma_empty_text(s: Seq<char>)
    ensures
        encode_utf8(s).len() == 0 <==> s.len() == 0,
{
    let none = Seq::<char>::empty();
    if s.len() == 0 {
        assert(s =~= none);
        assert(encode_utf8(s) =~= Seq::<u8>::empty());
    }
    if encode_utf8(s).len() == 0 {
        assert(encode_utf8(none) =~= Seq::<u8>::empty());
        assert(encode_utf8(s) =~= encode_utf8(none));
        crate::text::lemma_encoding_is_injective(s, none);
    }
}

proof fn lemma_connect_len(list: Seq<Seq<u8>>)
    requires
        list.len() <= 5,
        forall|i: int| 0 <= i < list.len() ==> (#[trigger] list[i]).len() <= 65535,
    ensures
        field_list(list).len() <= 65537 * list.len(),
    decreases list.len(),
{
    if list.len() > 0 {
        assert(list[0].len() <= 65535);
        assert forall|i: int| 0 <= i < list.drop_first().len() implies (
        #[trigger] list.drop_first()[i]).len() <= 65535 by {
            assert(list.drop_first()[i] == list[i + 1]);
        }
        lemma_connect_len(list.drop_first());
    }
}

/// A CONNECT at another protocol level is refused with return code 1, whatever else it holds.
pub proof fn law_other_levels_are_refused(
    s: MqttSessionView,
    level: u8,
    keep_alive: u16,
    client: Seq<char>,
    will: Option<(Seq<char>, Seq<u8>)>,
    username: Option<Seq<char>>,
    password: Option<Seq<u8>>,
)
    requires
        !s.connected,
        level != 4,
        connect_body(level, keep_alive, client, will, username, password).len() <= 268_435_455,
    ensures
        ({
            let body = connect_body(level, keep_alive, client, will, username, password);
            let frame = seq![0x10u8] + varint_bytes(body.len()) + body;
            reaction(s, frame) == ReactionView::Refuse(seq![0x20u8, 0x02, 0x00, 0x01])
        }),
{
    let body = connect_body(level, keep_alive, client, will, username, password);
    lemma_connect_body(level, keep_alive, client, will, username, password);
    lemma_framed(0x10, body);
    let frame = seq![0x10u8] + varint_bytes(body.len()) + body;
    assert(frame[0] == 0x10);
    assert(reaction(s, frame) is Refuse);
    assert(seq![0x20u8, 0x02, 0x00, 1u8] =~= seq![0x20u8, 0x02, 0x00, 0x01]);
}

/// A connected session answers a PINGREQ with a PINGRESP, ends at a DISCONNECT and at a second
/// CONNECT, and keeps its subscriptions at each.
pub proof fn law_a_session_is_kept_alive(s: MqttSessionView, frame: Seq<u8>)
    requires
        s.connected,
        frame.len() > 0,
    ensures
        frame[0] / 16 == 12 ==> reaction(s, frame) == ReactionView::Reply(seq![0xD0u8, 0x00]),
        frame[0] / 16 == 14 || frame[0] / 16 == 1 ==> reaction(s, frame) is End,
        frame[0] / 16 != 8 ==> subscriptions_after(s, frame) == s.subscriptions,
{
}

/// A notification goes out to a user's session exactly where it is the user's or the server's own
/// and is not about screen sharing; it is then published once on each topic, as it is.
pub proof fn law_own_events_are_published_on_every_topic(
    a: crate::notifications::AttributesView,
    user: Seq<char>,
    topics: Seq<Seq<char>>,
    payload: Seq<u8>,
)
    ensures
        !"Screenshare"@.is_prefix_of(a.event) && (a.auth0_user_id == user || a.auth0_user_id
            == "local-user"@) ==> forwarded(a, user),
        publishes(topics, payload).len() == topics.len(),
        forall|i: int|
            0 <= i < topics.len() && 2 + encode_utf8(topics[i]).len() + payload.len()
                <= 268_435_455 && encode_utf8(topics[i]).len() <= 65535 ==> (body_of(
                #[trigger] publishes(topics, payload)[i],
            ) matches Some(b) && string_field(b) == Some(topics[i]) && b.skip(
                2 + encode_utf8(topics[i]).len() as int,
            ) == payload),
{
    assert forall|i: int|
        0 <= i < topics.len() && 2 + encode_utf8(topics[i]).len() + payload.len() <= 268_435_455
            && encode_utf8(topics[i]).len() <= 65535 implies (body_of(
        #[trigger] publishes(topics, payload)[i],
    ) matches Some(b) && string_field(b) == Some(topics[i]) && b.skip(
        2 + encode_utf8(topics[i]).len() as int,
    ) == payload) by {
        law_publish_reads_back(topics[i], payload, 0, None);
    }
}

/// A CONNECT that does not conform ends the session in silence: another protocol, a flag that has
/// to be clear, settings of a will that is not there, or a password without a user name.
pub proof fn law_a_malformed_connect_ends_the_session(s: MqttSessionView, body: Seq<u8>)
    requires
        !s.connected,
        body.len() <= 268_435_455,
    ensures
        ({
            let frame = seq![0x10u8] + varint_bytes(body.len()) + body;
            &&& string_field(body) is None ==> reaction(s, frame) is End
            &&& string_field(body) is Some && string_field(body) != Some("MQTT"@) && string_field(
                body,
            ) != Some("MQIsdp"@) ==> reaction(s, frame) is End
            &&& string_field(body) == Some("MQTT"@) && body.len() < 10 ==> reaction(s, frame) is End
            &&& string_field(body) == Some("MQTT"@) && body.len() >= 10 && body[6] == 4 ==> {
                &&& body[7] & 0x01 != 0 ==> reaction(s, frame) is End
                &&& body[7] & 0x04 == 0 && body[7] & 0x38 != 0 ==> reaction(s, frame) is End
                &&& body[7] & 0x40 != 0 && body[7] & 0x80 == 0 ==> reaction(s, frame) is End
            }
        }),
{
    let frame = seq![0x10u8] + varint_bytes(body.len()) + body;
    lemma_framed(0x10, body);
    assert(frame[0] == 0x10);
    if string_field(body) == Some("MQTT"@) {
        let f = field(body)->0;
        decode_utf8_encode_utf8(f);
        reveal_strlit("MQTT");
        assert(is_ascii_chars("MQTT"@)) by {
            assert forall|i: int| 0 <= i < "MQTT"@.len() implies '\0' <= #[trigger] "MQTT"@[i]
                <= '\u{7f}' by {}
        }
        is_ascii_chars_encode_utf8("MQTT"@);
        assert(f.len() == 4);
    }
}

/// A CONNECT has to end where its payload does: nothing may follow its last field.
pub proof fn law_nothing_follows_a_connect(list: Seq<Seq<u8>>, kinds: Seq<bool>, extra: Seq<u8>)
    requires
        kinds.len() == list.len(),
        extra.len() > 0,
        forall|i: int| 0 <= i < list.len() ==> (#[trigger] list[i]).len() <= 65535,
    ensures
        fields(field_list(list) + extra, kinds) is None,
    decreases list.len(),
{
    if list.len() == 0 {
        assert(field_list(list) + extra =~= extra);
    } else {
        let rest = list.drop_first();
        let after = field_list(rest) + extra;
        assert(field_list(list) + extra =~= bytes_field(list[0]) + after);
        assert(list[0].len() <= 65535);
        lemma_field_reads_back(list[0], after);
        assert forall|i: int| 0 <= i < rest.len() implies (#[trigger] rest[i]).len() <= 65535 by {
            assert(rest[i] == list[i + 1]);
        }
        law_nothing_follows_a_connect(rest, kinds.drop_first(), extra);
    }
}

} // verus!

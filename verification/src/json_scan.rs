//! Incremental reader for a JSON request that carries one large string member, so that the
//! body never has to be held whole.
//!
//! The document is fed chunk by chunk. The value of one top-level member (the *streamed* key)
//! is unescaped straight into an [`Output`] for the caller to decode as it arrives; a few other
//! top-level string members are *captured* (small, capped); everything else is validated and
//! dropped. Memory stays bounded by the caps below whatever the body's size.
//!
//! What the reader does is given by [`step`], its transition on one byte, and [`run`], the same
//! over a chunk. Which documents that accepts is the subject of [`crate::json_grammar`].

use vstd::prelude::*;
use vstd::slice::*;
use vstd::string::*;
use vstd::utf8::*;

use crate::text::{same_bytes, utf8_str};

verus! {

/// Most containers that may be open at once.
pub const MAX_DEPTH: usize = 127;

/// Longest numeral held for validation.
pub const MAX_NUMBER: usize = 4096;

/// Keys are compared on at most this many unescaped bytes (longer ones match nothing).
pub const KEY_CAP: usize = 64;

/// The key by which serde_json marks raw values.
pub const RAW_VALUE_TOKEN: &'static str = "$serde_json::private::RawValue";

/// Last occurrence of a captured top-level member.
#[derive(Debug, Clone, PartialEq, Eq)]
pub enum Member {
    Absent,
    /// Present, but not a string.
    NotString,
    Text(String),
    /// A string longer than the capture cap.
    TooLong,
}

/// A [`Member`] with its text as characters.
pub enum MemberView {
    Absent,
    NotString,
    Text(Seq<char>),
    TooLong,
}

impl View for Member {
    type V = MemberView;

    open spec fn view(&self) -> MemberView {
        match self {
            Member::Absent => MemberView::Absent,
            Member::NotString => MemberView::NotString,
            Member::Text(s) => MemberView::Text(s@),
            Member::TooLong => MemberView::TooLong,
        }
    }
}

impl Default for Member {
    fn default() -> (r: Self)
        ensures
            r == Member::Absent,
    {
        Member::Absent
    }
}

impl Member {
    /// The string value (`None` if there is none, or it was too long).
    pub fn as_str(&self) -> (r: Option<&str>)
        ensures
            r is Some <==> self is Text,
            r matches Some(s) ==> self@ == MemberView::Text(s@),
    {
        match self {
            Member::Text(s) => Some(s.as_str()),
            _ => None,
        }
    }
}

/// Last occurrence of the streamed member.
#[derive(Debug, Clone, Copy, PartialEq, Eq, Structural)]
pub enum Streamed {
    Absent,
    NotString,
    /// A string: its unescaped bytes went to [`Output`] since the last restart.
    Text,
}

impl Default for Streamed {
    fn default() -> (r: Self)
        ensures
            r == Streamed::Absent,
    {
        Streamed::Absent
    }
}

/// What a complete document held.
#[derive(Debug)]
pub struct Scanned {
    /// One per capture key, in the order given to [`JsonScanner::new`].
    pub captured: Vec<Member>,
    pub streamed: Streamed,
}

/// Unescaped streamed-member bytes produced by one [`JsonScanner::feed`] call.
#[derive(Debug)]
pub struct Output {
    /// A new occurrence of the streamed member began: discard everything received for it before
    /// this call. `bytes` then holds only the new occurrence's start.
    pub restart: bool,
    pub bytes: Vec<u8>,
}

impl Default for Output {
    fn default() -> (r: Self)
        ensures
            !r.restart,
            r.bytes@ == Seq::<u8>::empty(),
    {
        Output { restart: false, bytes: Vec::new() }
    }
}

/// Why a document was refused.
#[derive(Debug, Clone, PartialEq, Eq)]
pub enum ScanError {
    /// Not an acceptable JSON document.
    Syntax { at: u64, what: &'static str },
    /// A token over a memory cap.
    TooLong { what: &'static str },
}

impl ScanError {
    /// The error in words.
    pub fn message(&self) -> (r: String)
        ensures
            match *self {
                ScanError::Syntax { at, what } => r@ == "invalid JSON at byte "@
                    + crate::text::decimal(at as nat) + ": "@ + what@,
                ScanError::TooLong { what } => r@ == what@ + " too long"@,
            },
    {
        let mut out = String::new();
        match self {
            ScanError::Syntax { at, what } => {
                out.push_str("invalid JSON at byte ");
                out.push_str(crate::text::decimal_u64(*at).as_str());
                out.push_str(": ");
                out.push_str(what);
            },
            ScanError::TooLong { what } => {
                out.push_str(what);
                out.push_str(" too long");
            },
        }
        out
    }
}

/// A failure on one byte, before it is given its place in the document.
pub enum Fail {
    Syntax(&'static str),
    TooLong(&'static str),
}

#[derive(Debug, Clone, Copy, PartialEq, Eq, Structural)]
pub enum State {
    /// A value (top level, after ':', after ',' in an array).
    Value,
    /// After '[': a value or ']'.
    ArrayStart,
    /// After '{': a key or '}'.
    ObjectStart,
    /// After ',' in an object: a key.
    Key,
    Colon,
    /// After a value in a container: ',' or the closing bracket.
    AfterValue,
    Str,
    Number,
    Literal,
    /// The top-level value is complete: only whitespace may follow.
    End,
}

#[derive(Debug, Clone, Copy, PartialEq, Eq, Structural)]
pub enum Container {
    Object,
    Array,
}

/// What the string being read is for.
#[derive(Debug, Clone, Copy, PartialEq, Eq, Structural)]
pub enum Role {
    Key,
    Streamed,
    Captured(usize),
    Skipped,
}

/// The top-level member whose value comes next.
#[derive(Debug, Clone, Copy, PartialEq, Eq, Structural)]
pub enum Target {
    Streamed,
    Captured(usize),
    Other,
}

/// Progress inside an escape sequence.
#[derive(Debug, Clone, Copy, PartialEq, Eq, Structural)]
pub enum Esc {
    /// Outside any.
    Plain,
    /// After '\'.
    Backslash,
    /// Inside `\uXXXX`: `digits` read so far; `lead` is a pending high surrogate.
    Hex { n: u16, digits: u8, lead: Option<u16> },
    /// After a high surrogate escape: the low one's '\' (or, if seen, its 'u') is next.
    Low { high: u16, backslash: bool },
}

/// What a reader was asked for.
pub struct Config {
    pub streamed_key: Seq<u8>,
    pub capture_keys: Seq<Seq<u8>>,
    pub cap: nat,
}

/// A reader's state, together with the output it writes to.
#[verifier::ext_equal]
pub struct Scan {
    pub state: State,
    /// Open containers, innermost last.
    pub stack: Seq<Container>,
    pub role: Role,
    pub esc: Esc,
    /// Continuation bytes still due for a raw UTF-8 sequence, and the next one's range.
    pub need: u8,
    pub lo: u8,
    pub hi: u8,
    /// The key being read; `None` once it is over [`KEY_CAP`].
    pub key: Option<Seq<u8>>,
    pub first_key: bool,
    pub member: Target,
    /// The captured text being read; `None` once it is over the cap.
    pub text: Option<Seq<u8>>,
    pub number: Seq<u8>,
    /// What is still due of `true`, `false` or `null`.
    pub literal: Seq<u8>,
    pub captured: Seq<MemberView>,
    pub streamed: Streamed,
    pub restart: bool,
    pub bytes: Seq<u8>,
}

/// The state before the first byte.
pub open spec fn start(c: Config) -> Scan {
    Scan {
        state: State::Value,
        stack: Seq::empty(),
        role: Role::Skipped,
        esc: Esc::Plain,
        need: 0,
        lo: 0x80,
        hi: 0xBF,
        key: Some(Seq::empty()),
        first_key: false,
        member: Target::Other,
        text: Some(Seq::empty()),
        number: Seq::empty(),
        literal: Seq::empty(),
        captured: Seq::new(c.capture_keys.len(), |i: int| MemberView::Absent),
        streamed: Streamed::Absent,
        restart: false,
        bytes: Seq::empty(),
    }
}

/// `s` with another output.
pub open spec fn with_output(s: Scan, restart: bool, bytes: Seq<u8>) -> Scan {
    Scan { restart, bytes, ..s }
}

/// JSON whitespace.
pub open spec fn is_space(b: u8) -> bool {
    b == 0x20 || b == 0x0A || b == 0x0D || b == 0x09
}

/// Bytes that numerals are made of.
pub open spec fn is_numeral_byte(b: u8) -> bool {
    0x30 <= b <= 0x39 || b == 0x2D || b == 0x2B || b == 0x2E || b == 0x65 || b == 0x45
}

/// Whether `serde_json::from_slice::<serde_json::Value>` takes `bytes` for a document.
pub uninterp spec fn serde_json_accepts(bytes: Seq<u8>) -> bool;

/// `serde_json::from_slice` into a `Value`: whether it succeeds is a function of the bytes,
/// named [`serde_json_accepts`].
#[verifier::external_body]
fn value_parses(bytes: &[u8]) -> (r: bool)
    ensures
        r == serde_json_accepts(bytes@),
{
    serde_json::from_slice::<serde_json::Value>(bytes).is_ok()
}

/// The target a key names.
pub open spec fn target_of(c: Config, key: Option<Seq<u8>>) -> Target {
    match key {
        None => Target::Other,
        Some(k) => if k == c.streamed_key {
            Target::Streamed
        } else if c.capture_keys.contains(k) {
            Target::Captured(c.capture_keys.index_of_first(k)->0 as usize)
        } else {
            Target::Other
        },
    }
}

/// `s` once a value is complete.
pub open spec fn value_done(s: Scan) -> Scan {
    Scan { state: if s.stack.len() == 0 { State::End } else { State::AfterValue }, ..s }
}

/// `s` once the innermost container is closed.
pub open spec fn close(s: Scan) -> Scan {
    value_done(Scan { stack: if s.stack.len() == 0 { s.stack } else { s.stack.drop_last() }, ..s })
}

/// `s` at the start of a string.
pub open spec fn begin_string(s: Scan, role: Role) -> Scan {
    Scan { role, esc: Esc::Plain, need: 0, state: State::Str, ..s }
}

/// `held` with `bytes` appended, unless that makes it longer than `cap`.
pub open spec fn hold(held: Option<Seq<u8>>, bytes: Seq<u8>, cap: nat) -> Option<Seq<u8>> {
    match held {
        None => None,
        Some(k) => if k.len() + bytes.len() > cap {
            None
        } else {
            Some(k + bytes)
        },
    }
}

/// `s` with `bytes` added to what its string is for.
pub open spec fn emit(c: Config, s: Scan, bytes: Seq<u8>) -> Scan {
    match s.role {
        Role::Key => Scan { key: hold(s.key, bytes, KEY_CAP as nat), ..s },
        Role::Streamed => Scan { bytes: s.bytes + bytes, ..s },
        Role::Captured(i) => Scan { text: hold(s.text, bytes, c.cap), ..s },
        Role::Skipped => s,
    }
}

/// The member that a value starting now belongs to: only one directly inside a top-level
/// object has one.
pub open spec fn value_target(s: Scan) -> Target {
    if s.stack.len() == 1 && s.stack[0] == Container::Object {
        s.member
    } else {
        Target::Other
    }
}

/// `s` with the member `t` noted as holding something else than a string.
pub open spec fn note_not_string(s: Scan, t: Target) -> Scan {
    match t {
        Target::Streamed => Scan { streamed: Streamed::NotString, ..s },
        Target::Captured(i) => Scan {
            captured: s.captured.update(i as int, MemberView::NotString),
            ..s
        },
        Target::Other => s,
    }
}

/// The first byte of a value.
pub open spec fn begin_value(s: Scan, b: u8) -> Result<Scan, Fail> {
    let t = value_target(s);
    if b == 0x22 {
        match t {
            Target::Streamed => Ok(
                begin_string(
                    Scan { restart: true, bytes: Seq::empty(), streamed: Streamed::Text, ..s },
                    Role::Streamed,
                ),
            ),
            Target::Captured(i) => Ok(
                begin_string(Scan { text: Some(Seq::empty()), ..s }, Role::Captured(i)),
            ),
            Target::Other => Ok(begin_string(s, Role::Skipped)),
        }
    } else {
        let s = note_not_string(s, t);
        if b == 0x7B || b == 0x5B {
            if s.stack.len() >= MAX_DEPTH {
                Err(Fail::Syntax("recursion limit exceeded"))
            } else if b == 0x7B {
                Ok(Scan { stack: s.stack.push(Container::Object), state: State::ObjectStart, ..s })
            } else {
                Ok(Scan { stack: s.stack.push(Container::Array), state: State::ArrayStart, ..s })
            }
        } else if b == 0x74 {
            Ok(Scan { literal: seq![0x72u8, 0x75, 0x65], state: State::Literal, ..s })
        } else if b == 0x66 {
            Ok(Scan { literal: seq![0x61u8, 0x6C, 0x73, 0x65], state: State::Literal, ..s })
        } else if b == 0x6E {
            Ok(Scan { literal: seq![0x75u8, 0x6C, 0x6C], state: State::Literal, ..s })
        } else if b == 0x2D || 0x30 <= b <= 0x39 {
            Ok(Scan { number: seq![b], state: State::Number, ..s })
        } else {
            Err(Fail::Syntax("expected a value"))
        }
    }
}

/// A byte between tokens.
pub open spec fn structural(s: Scan, b: u8) -> Result<Scan, Fail> {
    if is_space(b) {
        Ok(s)
    } else {
        match s.state {
            State::Value => begin_value(s, b),
            State::ArrayStart => if b == 0x5D {
                Ok(close(s))
            } else {
                begin_value(s, b)
            },
            State::ObjectStart | State::Key => if s.state == State::ObjectStart && b == 0x7D {
                Ok(close(s))
            } else if b == 0x22 {
                Ok(
                    begin_string(
                        Scan {
                            key: Some(Seq::empty()),
                            first_key: s.state == State::ObjectStart,
                            ..s
                        },
                        Role::Key,
                    ),
                )
            } else {
                Err(Fail::Syntax("expected a string key"))
            },
            State::Colon => if b == 0x3A {
                Ok(Scan { state: State::Value, ..s })
            } else {
                Err(Fail::Syntax("expected ':'"))
            },
            State::AfterValue => if s.stack.len() > 0 && b == 0x2C {
                if s.stack.last() == Container::Object {
                    Ok(Scan { state: State::Key, ..s })
                } else {
                    Ok(Scan { state: State::Value, ..s })
                }
            } else if s.stack.len() > 0 && b == (if s.stack.last() == Container::Object {
                0x7Du8
            } else {
                0x5Du8
            }) {
                Ok(close(s))
            } else {
                Err(Fail::Syntax("expected ',' or a closing bracket"))
            },
            _ => Err(Fail::Syntax("trailing characters")),
        }
    }
}

/// A byte of `true`, `false` or `null`.
pub open spec fn literal(s: Scan, b: u8) -> Result<Scan, Fail> {
    if s.literal.len() > 0 && s.literal[0] == b {
        let s = Scan { literal: s.literal.drop_first(), ..s };
        if s.literal.len() == 0 {
            Ok(value_done(s))
        } else {
            Ok(s)
        }
    } else {
        Err(Fail::Syntax("invalid literal"))
    }
}

/// `s` once its numeral has ended.
pub open spec fn end_number(s: Scan) -> Result<Scan, Fail> {
    if serde_json_accepts(s.number) {
        Ok(value_done(Scan { number: Seq::empty(), ..s }))
    } else {
        Err(Fail::Syntax("invalid number"))
    }
}

/// The value of a hexadecimal digit.
pub open spec fn hex_value(b: u8) -> Option<u16> {
    if 0x30 <= b <= 0x39 {
        Some((b - 0x30) as u16)
    } else if 0x41 <= b <= 0x46 {
        Some((b - 0x41 + 10) as u16)
    } else if 0x61 <= b <= 0x66 {
        Some((b - 0x61 + 10) as u16)
    } else {
        None
    }
}

/// The byte that a one-letter escape stands for.
pub open spec fn escaped(b: u8) -> Option<u8> {
    if b == 0x22 || b == 0x5C || b == 0x2F {
        Some(b)
    } else if b == 0x62 {
        Some(0x08)
    } else if b == 0x66 {
        Some(0x0C)
    } else if b == 0x6E {
        Some(0x0A)
    } else if b == 0x72 {
        Some(0x0D)
    } else if b == 0x74 {
        Some(0x09)
    } else {
        None
    }
}

/// How many continuation bytes follow the leading byte `b` of a UTF-8 sequence of two bytes or
/// more, and the range of the first of them; `None` for a byte that leads none.
pub open spec fn utf8_lead(b: u8) -> Option<(u8, u8, u8)> {
    if 0xC2 <= b <= 0xDF {
        Some((1, 0x80, 0xBF))
    } else if b == 0xE0 {
        Some((2, 0xA0, 0xBF))
    } else if b == 0xED {
        Some((2, 0x80, 0x9F))
    } else if 0xE1 <= b <= 0xEF {
        Some((2, 0x80, 0xBF))
    } else if b == 0xF0 {
        Some((3, 0x90, 0xBF))
    } else if 0xF1 <= b <= 0xF3 {
        Some((3, 0x80, 0xBF))
    } else if b == 0xF4 {
        Some((3, 0x80, 0x8F))
    } else {
        None
    }
}

pub open spec fn is_high_surrogate(n: u16) -> bool {
    0xD800 <= n <= 0xDBFF
}

pub open spec fn is_low_surrogate(n: u16) -> bool {
    0xDC00 <= n <= 0xDFFF
}

/// The code point that a surrogate pair stands for.
pub open spec fn paired(high: u16, low: u16) -> u32 {
    (0x1_0000 + (high - 0xD800) * 0x400 + (low - 0xDC00)) as u32
}

/// The byte of a character's UTF-8 encoding that is settled by the last of the `digits` hexadecimal
/// digits read of a `\u` escape, which make `n` so far; `lead` is the high surrogate that the escape
/// completes. Each digit settles at most one byte, and the last digit settles the last byte. (Of a
/// pair, the high surrogate settles two bytes and the low one the other two.)
pub open spec fn due(lead: Option<u16>, n: u16, digits: u8) -> Option<u8> {
    match lead {
        None => if digits == 1 {
            if n == 0 || n == 0xD {
                None
            } else {
                Some((0xE0 + n) as u8)
            }
        } else if digits == 2 {
            if 0x08 <= n < 0x10 {
                Some(0xE0)
            } else if 0xD0 <= n < 0xD8 {
                Some(0xED)
            } else {
                None
            }
        } else if digits == 3 {
            if n < 0x008 || 0xDC0 <= n < 0xE00 {
                None
            } else if n < 0x080 {
                Some((0xC0 + n / 4) as u8)
            } else if 0xD80 <= n < 0xDC0 {
                Some((0xF0 + ((n - 0xD80) / 4 + 1) / 4) as u8)
            } else {
                Some((0x80 + n / 4 % 64) as u8)
            }
        } else {
            if n < 0x0080 {
                Some(n as u8)
            } else if is_high_surrogate(n) {
                Some((0x80 + ((n - 0xD800) / 64 + 1) % 4 * 16 + n / 4 % 16) as u8)
            } else {
                Some((0x80 + n % 64) as u8)
            }
        },
        Some(high) => if digits == 3 && 0xDC0 <= n < 0xE00 {
            Some((0x80 + high % 4 * 16 + (n - 0xDC0) / 4) as u8)
        } else if digits == 4 {
            Some((0x80 + n % 64) as u8)
        } else {
            None
        },
    }
}

/// `s` with a byte added to what its string is for, if there is one.
pub open spec fn emit_due(c: Config, s: Scan, byte: Option<u8>) -> Scan {
    match byte {
        Some(b) => emit(c, s, seq![b]),
        None => s,
    }
}

/// The end of a string.
pub open spec fn end_string(c: Config, s: Scan) -> Result<Scan, Fail> {
    match s.role {
        Role::Key => if s.first_key && s.key == Some(encode_utf8(RAW_VALUE_TOKEN@)) {
            Err(Fail::Syntax("serde_json RawValue marker key not supported"))
        } else {
            Ok(
                Scan {
                    member: if s.stack.len() == 1 {
                        target_of(c, s.key)
                    } else {
                        s.member
                    },
                    state: State::Colon,
                    ..s
                },
            )
        },
        Role::Captured(i) => match s.text {
            None => Ok(
                value_done(Scan { captured: s.captured.update(i as int, MemberView::TooLong), ..s }),
            ),
            Some(t) => if valid_utf8(t) {
                Ok(
                    value_done(
                        Scan {
                            captured: s.captured.update(
                                i as int,
                                MemberView::Text(decode_utf8(t)),
                            ),
                            text: Some(Seq::empty()),
                            ..s
                        },
                    ),
                )
            } else {
                Err(Fail::Syntax("invalid UTF-8 in string"))
            },
        },
        Role::Streamed | Role::Skipped => Ok(value_done(s)),
    }
}

/// A byte inside a string.
pub open spec fn string(c: Config, s: Scan, b: u8) -> Result<Scan, Fail> {
    match s.esc {
        Esc::Plain => if s.need > 0 {
            if s.lo <= b <= s.hi {
                Ok(emit(c, Scan { need: (s.need - 1) as u8, lo: 0x80, hi: 0xBF, ..s }, seq![b]))
            } else {
                Err(Fail::Syntax("invalid UTF-8 in string"))
            }
        } else if b == 0x22 {
            end_string(c, s)
        } else if b == 0x5C {
            Ok(Scan { esc: Esc::Backslash, ..s })
        } else if b < 0x20 {
            Err(Fail::Syntax("control character in string"))
        } else if b < 0x80 {
            Ok(emit(c, s, seq![b]))
        } else {
            match utf8_lead(b) {
                Some((need, lo, hi)) => Ok(emit(c, Scan { need, lo, hi, ..s }, seq![b])),
                None => Err(Fail::Syntax("invalid UTF-8 in string")),
            }
        },
        Esc::Backslash => if b == 0x75 {
            Ok(Scan { esc: Esc::Hex { n: 0, digits: 0, lead: None }, ..s })
        } else {
            match escaped(b) {
                Some(e) => Ok(emit(c, Scan { esc: Esc::Plain, ..s }, seq![e])),
                None => Err(Fail::Syntax("invalid escape")),
            }
        },
        Esc::Hex { n, digits, lead } => match hex_value(b) {
            None => Err(Fail::Syntax("invalid escape")),
            Some(d) => {
                let n = (n * 16 + d) as u16;
                let byte = due(lead, n, (digits + 1) as u8);
                if digits < 3 {
                    let esc = Esc::Hex { n, digits: (digits + 1) as u8, lead };
                    Ok(emit_due(c, Scan { esc, ..s }, byte))
                } else if lead is None && is_high_surrogate(n) {
                    let esc = Esc::Low { high: n, backslash: false };
                    Ok(emit_due(c, Scan { esc, ..s }, byte))
                } else if (lead is Some) == is_low_surrogate(n) {
                    Ok(emit_due(c, Scan { esc: Esc::Plain, ..s }, byte))
                } else {
                    Err(Fail::Syntax("unpaired surrogate escape"))
                }
            },
        },
        Esc::Low { high, backslash } => if !backslash && b == 0x5C {
            Ok(Scan { esc: Esc::Low { high, backslash: true }, ..s })
        } else if backslash && b == 0x75 {
            Ok(Scan { esc: Esc::Hex { n: 0, digits: 0, lead: Some(high) }, ..s })
        } else {
            Err(Fail::Syntax("unpaired surrogate escape"))
        },
    }
}

/// A failure, and whether it is reported where its token began in the chunk (rather than at the
/// byte that showed it).
pub struct Refusal {
    pub fail: Fail,
    pub token: bool,
}

pub open spec fn refused(r: Result<Scan, Fail>, token: bool) -> Result<Scan, Refusal> {
    match r {
        Ok(s) => Ok(s),
        Err(fail) => Err(Refusal { fail, token }),
    }
}

/// The transition on one byte.
pub open spec fn step(c: Config, s: Scan, b: u8) -> Result<Scan, Refusal> {
    match s.state {
        State::Str => refused(string(c, s, b), true),
        State::Number => if is_numeral_byte(b) {
            if s.number.len() + 1 > MAX_NUMBER {
                Err(Refusal { fail: Fail::TooLong("numeral"), token: true })
            } else {
                Ok(Scan { number: s.number.push(b), ..s })
            }
        } else {
            match end_number(s) {
                Err(fail) => Err(Refusal { fail, token: true }),
                Ok(s) => refused(structural(s, b), false),
            }
        },
        State::Literal => refused(literal(s, b), false),
        _ => refused(structural(s, b), false),
    }
}

/// Whether a string or a numeral is being read.
pub open spec fn in_token(state: State) -> bool {
    state == State::Str || state == State::Number
}

/// A failure in a chunk, placed by its offset there; `out` is the output up to it.
pub struct Stop {
    pub fail: Fail,
    pub at: nat,
    pub restart: bool,
    pub bytes: Seq<u8>,
}

/// The transitions on `input[i..]`, where the current token began at `mark`.
pub open spec fn run_from(c: Config, s: Scan, input: Seq<u8>, i: nat, mark: nat) -> Result<
    Scan,
    Stop,
>
    decreases input.len() - i,
{
    if i >= input.len() {
        Ok(s)
    } else {
        match step(c, s, input[i as int]) {
            Err(r) => Err(
                Stop {
                    fail: r.fail,
                    at: if r.token {
                        mark
                    } else {
                        i
                    },
                    restart: s.restart,
                    bytes: s.bytes,
                },
            ),
            Ok(t) => run_from(
                c,
                t,
                input,
                i + 1,
                if in_token(t.state) && !in_token(s.state) {
                    i + 1
                } else {
                    mark
                },
            ),
        }
    }
}

/// The transitions on a chunk.
pub open spec fn run(c: Config, s: Scan, input: Seq<u8>) -> Result<Scan, Stop> {
    run_from(c, s, input, 0, 0)
}

/// The transitions on `input[i..j]`, where a token goes on at `i`.
pub open spec fn run_part(c: Config, s: Scan, input: Seq<u8>, i: nat, j: nat) -> Result<Scan, Stop> {
    run_from(c, s, input.take(j as int), i, i)
}

/// A failure placed at `at` in the document.
pub open spec fn placed(fail: Fail, at: nat) -> ScanError {
    match fail {
        Fail::Syntax(what) => ScanError::Syntax { at: at as u64, what },
        Fail::TooLong(what) => ScanError::TooLong { what },
    }
}

/// What a document that ended in `s`, after `length` bytes, comes to.
pub open spec fn finished(s: Scan, length: nat) -> Result<(Seq<MemberView>, Streamed), ScanError> {
    let e = if s.state == State::Number {
        end_number(s)
    } else {
        Ok(s)
    };
    match e {
        Err(fail) => Err(placed(fail, length)),
        Ok(s) => if s.state == State::End {
            Ok((s.captured, s.streamed))
        } else {
            Err(ScanError::Syntax { at: length as u64, what: "unexpected end of input" })
        },
    }
}

/// What every reachable state keeps: the caps, and indices that name a captured member.
pub open spec fn bounded(c: Config, s: Scan) -> bool {
    &&& s.stack.len() <= MAX_DEPTH
    &&& s.number.len() <= MAX_NUMBER
    &&& s.key matches Some(k) ==> k.len() <= KEY_CAP
    &&& s.text matches Some(t) ==> t.len() <= c.cap
    &&& s.captured.len() == c.capture_keys.len()
    &&& s.role matches Role::Captured(i) ==> i < s.captured.len()
    &&& s.member matches Target::Captured(i) ==> i < s.captured.len()
    &&& s.esc matches Esc::Hex { n, digits, lead } ==> digits <= 3 && n < (if digits == 0 {
        1int
    } else if digits == 1 {
        0x10
    } else if digits == 2 {
        0x100
    } else {
        0x1000
    }) && (lead matches Some(h) ==> is_high_surrogate(h))
    &&& s.esc matches Esc::Low { high, .. } ==> is_high_surrogate(high)
    &&& s.state == State::Number ==> s.number.len() > 0
}

/// A token's start matters only inside a token.
proof fn lemma_mark_unused(c: Config, s: Scan, input: Seq<u8>, i: nat, m: nat, n: nat)
    requires
        !in_token(s.state),
    ensures
        run_from(c, s, input, i, m) == run_from(c, s, input, i, n),
    decreases input.len() - i,
{
    if i < input.len() {
        if let Ok(t) = step(c, s, input[i as int]) {
            if !in_token(t.state) {
                lemma_mark_unused(c, t, input, i + 1, m, n);
            }
        }
    }
}

/// One byte more.
proof fn lemma_one_more(c: Config, s: Scan, input: Seq<u8>, i: nat, j: nat, m: nat)
    requires
        i <= j < input.len(),
    ensures
        run_from(c, s, input.take(j as int), i, m) matches Ok(t) ==> (step(c, t, input[j as int])
            matches Ok(u) ==> run_from(c, s, input.take(j as int + 1), i, m) == Ok::<Scan, Stop>(u)),
    decreases j - i,
{
    let longer = input.take(j as int + 1);
    assert(longer[i as int] == input[i as int]);
    if i < j {
        assert(input.take(j as int)[i as int] == input[i as int]);
        if let Ok(t) = step(c, s, input[i as int]) {
            let n = if in_token(t.state) && !in_token(s.state) {
                i + 1
            } else {
                m
            };
            lemma_one_more(c, t, input, i + 1, j, n);
        }
    } else if let Ok(u) = step(c, s, input[j as int]) {
        let n = if in_token(u.state) && !in_token(s.state) {
            i + 1
        } else {
            m
        };
        assert(run_from(c, u, longer, j + 1, n) == Ok::<Scan, Stop>(u));
    }
}

/// Each byte yields at most one byte of output.
pub proof fn lemma_output_growth(c: Config, s: Scan, input: Seq<u8>, i: nat, m: nat)
    requires
        i <= input.len(),
    ensures
        match run_from(c, s, input, i, m) {
            Ok(t) => t.bytes.len() <= s.bytes.len() + (input.len() - i),
            Err(stop) => stop.bytes.len() <= s.bytes.len() + (input.len() - i),
        },
    decreases input.len() - i,
{
    if i < input.len() {
        if let Ok(t) = step(c, s, input[i as int]) {
            assert(t.bytes.len() <= s.bytes.len() + 1);
            let n = if in_token(t.state) && !in_token(s.state) {
                i + 1
            } else {
                m
            };
            lemma_output_growth(c, t, input, i + 1, n);
        }
    }
}

/// Adding bytes piece by piece is adding them at once.
proof fn lemma_emit_concat(c: Config, s: Scan, a: Seq<u8>, b: Seq<u8>)
    requires
        bounded(c, s),
    ensures
        emit(c, emit(c, s, a), b) == emit(c, s, a + b),
        emit(c, s, Seq::empty()) == s,
{
    if let Some(k) = s.key {
        assert(k + a + b =~= k + (a + b));
        assert(k + Seq::<u8>::empty() =~= k);
    }
    if let Some(k) = s.text {
        assert(k + a + b =~= k + (a + b));
        assert(k + Seq::<u8>::empty() =~= k);
    }
    assert(s.bytes + a + b =~= s.bytes + (a + b));
    assert(s.bytes + Seq::<u8>::empty() =~= s.bytes);
}

/// A byte that stands for itself in a string, and for no part of a longer sequence.
pub open spec fn is_plain(b: u8) -> bool {
    0x20 <= b < 0x80 && b != 0x22 && b != 0x5C
}

/// Plain bytes go out as they are.
proof fn lemma_plain_run(c: Config, s: Scan, input: Seq<u8>, i: nat, k: nat, m: nat)
    requires
        bounded(c, s),
        s.state == State::Str,
        s.esc == Esc::Plain,
        s.need == 0,
        i <= k <= input.len(),
        forall|j: int| i <= j < k ==> is_plain(#[trigger] input[j]),
    ensures
        run_from(c, s, input, i, m) == run_from(
            c,
            emit(c, s, input.subrange(i as int, k as int)),
            input,
            k,
            m,
        ),
    decreases k - i,
{
    let all = input.subrange(i as int, k as int);
    if i == k {
        assert(all =~= Seq::empty());
        lemma_emit_concat(c, s, Seq::empty(), Seq::empty());
    } else {
        let b = input[i as int];
        let t = emit(c, s, seq![b]);
        let rest = input.subrange(i as int + 1, k as int);
        assert(step(c, s, b) == Ok::<Scan, Refusal>(t));
        assert(seq![b] + rest =~= all);
        lemma_emit_concat(c, s, seq![b], rest);
        lemma_plain_run(c, t, input, i + 1, k, m);
    }
}

/// Plain bytes keep a string open.
proof fn lemma_plain_part(c: Config, s: Scan, input: Seq<u8>, i: nat, f: nat, k: nat)
    requires
        i <= f <= k <= input.len(),
        run_part(c, s, input, i, f) is Ok,
        ({
            let t = run_part(c, s, input, i, f)->Ok_0;
            bounded(c, t) && t.state == State::Str && t.esc == Esc::Plain && t.need == 0
        }),
        forall|j: int| f <= j < k ==> is_plain(#[trigger] input[j]),
    ensures
        run_part(c, s, input, i, k) == Ok::<Scan, Stop>(
            emit(
                c,
                run_part(c, s, input, i, f)->Ok_0,
                input.subrange(f as int, k as int),
            ),
        ),
        forall|j: nat|
            f <= j <= k ==> ((#[trigger] run_part(c, s, input, i, j)) matches Ok(t) && t.state
                == State::Str),
    decreases k - f,
{
    let t = run_part(c, s, input, i, f)->Ok_0;
    if f == k {
        assert(input.subrange(f as int, k as int) =~= Seq::empty());
        lemma_emit_concat(c, t, Seq::empty(), Seq::empty());
    } else {
        let h = (k - 1) as nat;
        lemma_plain_part(c, s, input, i, f, h);
        let b = input[h as int];
        let most = input.subrange(f as int, h as int);
        assert(is_plain(b));
        lemma_one_more(c, s, input, i, h, i);
        lemma_emit_concat(c, t, most, seq![b]);
        assert(most + seq![b] =~= input.subrange(f as int, k as int));
    }
}

/// A run of numeral bytes is collected, unless it grows too long.
proof fn lemma_numeral_run(c: Config, s: Scan, input: Seq<u8>, i: nat, k: nat, m: nat)
    requires
        bounded(c, s),
        s.state == State::Number,
        i <= k <= input.len(),
        forall|j: int| i <= j < k ==> is_numeral_byte(#[trigger] input[j]),
    ensures
        run_from(c, s, input, i, m) == (if s.number.len() + (k - i) > MAX_NUMBER {
            Err::<Scan, Stop>(
                Stop {
                    fail: Fail::TooLong("numeral"),
                    at: m,
                    restart: s.restart,
                    bytes: s.bytes,
                },
            )
        } else {
            run_from(
                c,
                Scan { number: s.number + input.subrange(i as int, k as int), ..s },
                input,
                k,
                m,
            )
        }),
    decreases k - i,
{
    let all = input.subrange(i as int, k as int);
    if i == k {
        assert(s.number + all =~= s.number);
    } else {
        let b = input[i as int];
        if s.number.len() + 1 <= MAX_NUMBER {
            let t = Scan { number: s.number.push(b), ..s };
            let rest = input.subrange(i as int + 1, k as int);
            assert(t.number + rest =~= s.number + all);
            lemma_numeral_run(c, t, input, i + 1, k, m);
        }
    }
}

/// Reads a JSON document fed chunk by chunk.
pub struct JsonScanner {
    streamed_key: &'static [u8],
    capture_keys: &'static [&'static str],
    capture_cap: usize,
    state: State,
    stack: Vec<Container>,
    /// Bytes consumed by earlier `feed` calls.
    offset: u64,
    role: Role,
    esc: Esc,
    utf8_need: u8,
    utf8_lo: u8,
    utf8_hi: u8,
    key: Vec<u8>,
    key_long: bool,
    first_key: bool,
    member: Target,
    text: Vec<u8>,
    text_long: bool,
    number: Vec<u8>,
    literal: Vec<u8>,
    captured: Vec<Member>,
    streamed: Streamed,
}

/// The UTF-8 encodings of `keys`.
pub open spec fn encoded_keys(keys: Seq<&str>) -> Seq<Seq<u8>> {
    keys.map_values(|k: &str| encode_utf8(k@))
}

/// The views of `members`.
pub open spec fn member_views(members: Seq<Member>) -> Seq<MemberView> {
    members.map_values(|m: Member| m@)
}

/// `r`, and the state `now` it leaves, are what `want` says of the state `before`.
spec fn agrees(r: Result<(), Fail>, want: Result<Scan, Fail>, before: Scan, now: Scan) -> bool {
    match (r, want) {
        (Ok(()), Ok(t)) => now == t,
        (Err(f), Err(g)) => f == g && now.restart == before.restart && now.bytes == before.bytes,
        _ => false,
    }
}

/// What one [`JsonScanner::feed`] call does: `input` is run from where the reader stood before, on
/// an output that held `held`, and leaves the reader `after` and the output `given`.
pub open spec fn feeds(
    before: JsonScanner,
    held: (bool, Seq<u8>),
    input: Seq<u8>,
    after: JsonScanner,
    given: (bool, Seq<u8>),
    r: Result<(), ScanError>,
) -> bool {
    &&& after.config() == before.config()
    &&& match run(before.config(), with_output(before.reader(), held.0, held.1), input) {
        Ok(s) => {
            &&& r is Ok
            &&& after.reader() == with_output(s, false, Seq::empty())
            &&& given == (s.restart, s.bytes)
            &&& after.consumed() == before.consumed() + input.len()
        },
        Err(stop) => {
            &&& r == Err::<(), ScanError>(placed(stop.fail, before.consumed() + stop.at))
            &&& given == (stop.restart, stop.bytes)
            &&& after.consumed() == before.consumed()
        },
    }
}

/// What [`JsonScanner::finish`] gives.
pub open spec fn finishes(reader: JsonScanner, r: Result<Scanned, ScanError>) -> bool {
    match finished(reader.reader(), reader.consumed()) {
        Ok((captured, streamed)) => r matches Ok(found) && member_views(found.captured@) == captured
            && found.streamed == streamed,
        Err(e) => r == Err::<Scanned, ScanError>(e),
    }
}

impl JsonScanner {
    /// What the reader was asked for.
    pub closed spec fn config(&self) -> Config {
        Config {
            streamed_key: self.streamed_key@,
            capture_keys: encoded_keys(self.capture_keys@),
            cap: self.capture_cap as nat,
        }
    }

    /// How many bytes earlier `feed` calls consumed.
    pub closed spec fn consumed(&self) -> nat {
        self.offset as nat
    }

    /// The reader's state, with `out` as its output.
    pub open spec fn scan(&self, out: Output) -> Scan {
        with_output(self.reader(), out.restart, out.bytes@)
    }

    /// The reader's state, with nothing put out.
    pub closed spec fn reader(&self) -> Scan {
        Scan {
            state: self.state,
            stack: self.stack@,
            role: self.role,
            esc: self.esc,
            need: self.utf8_need,
            lo: self.utf8_lo,
            hi: self.utf8_hi,
            key: if self.key_long {
                None
            } else {
                Some(self.key@)
            },
            first_key: self.first_key,
            member: self.member,
            text: if self.text_long {
                None
            } else {
                Some(self.text@)
            },
            number: self.number@,
            literal: self.literal@,
            captured: member_views(self.captured@),
            streamed: self.streamed,
            restart: false,
            bytes: Seq::empty(),
        }
    }

    /// What holds of every reader.
    pub closed spec fn wf(&self) -> bool {
        &&& bounded(self.config(), self.reader())
        &&& self.key@.len() <= KEY_CAP
        &&& self.text@.len() <= self.capture_cap
    }

    spec fn same_setup(&self, other: Self) -> bool {
        self.config() == other.config() && self.offset == other.offset && self.wf()
    }

    /// Stream the top-level `streamed_key` member; capture each of `capture_keys` (a string of
    /// at most `capture_cap` unescaped bytes).
    pub fn new(
        streamed_key: &'static str,
        capture_keys: &'static [&'static str],
        capture_cap: usize,
    ) -> (r: Self)
        ensures
            r.wf(),
            r.consumed() == 0,
            r.config() == (Config {
                streamed_key: encode_utf8(streamed_key@),
                capture_keys: encoded_keys(capture_keys@),
                cap: capture_cap as nat,
            }),
            r.reader() == start(r.config()),
    {
        let mut captured: Vec<Member> = Vec::new();
        let mut i: usize = 0;
        while i < capture_keys.len()
            invariant
                i <= capture_keys@.len(),
                captured@.len() == i,
                forall|j: int| 0 <= j < i ==> captured@[j] == Member::Absent,
            decreases capture_keys@.len() - i,
        {
            captured.push(Member::Absent);
            i += 1;
        }
        let r = JsonScanner {
            streamed_key: streamed_key.as_bytes(),
            capture_keys,
            capture_cap,
            state: State::Value,
            stack: Vec::new(),
            offset: 0,
            role: Role::Skipped,
            esc: Esc::Plain,
            utf8_need: 0,
            utf8_lo: 0x80,
            utf8_hi: 0xBF,
            key: Vec::new(),
            key_long: false,
            first_key: false,
            member: Target::Other,
            text: Vec::new(),
            text_long: false,
            number: Vec::new(),
            literal: Vec::new(),
            captured,
            streamed: Streamed::Absent,
        };
        assert(member_views(captured@) =~= start(r.config()).captured);
        r
    }

    fn value_done(&mut self)
        requires
            old(self).wf(),
        ensures
            final(self).same_setup(*old(self)),
            forall|out: Output| #[trigger]
                final(self).scan(out) == value_done(old(self).scan(out)),
    {
        self.state = if self.stack.len() == 0 {
            State::End
        } else {
            State::AfterValue
        };
    }

    fn begin_string(&mut self, role: Role)
        requires
            old(self).wf(),
            role matches Role::Captured(i) ==> i < old(self).captured@.len(),
        ensures
            final(self).same_setup(*old(self)),
            forall|out: Output| #[trigger]
                final(self).scan(out) == begin_string(old(self).scan(out), role),
    {
        self.role = role;
        self.esc = Esc::Plain;
        self.utf8_need = 0;
        self.state = State::Str;
    }

    fn close(&mut self)
        requires
            old(self).wf(),
        ensures
            final(self).same_setup(*old(self)),
            forall|out: Output| #[trigger]
                final(self).scan(out) == close(old(self).scan(out)),
    {
        self.stack.pop();
        self.value_done();
    }

    fn note_not_string(&mut self, target: Target)
        requires
            old(self).wf(),
            target matches Target::Captured(i) ==> i < old(self).captured@.len(),
        ensures
            final(self).same_setup(*old(self)),
            forall|out: Output| #[trigger]
                final(self).scan(out) == note_not_string(old(self).scan(out), target),
    {
        match target {
            Target::Streamed => {
                self.streamed = Streamed::NotString;
            },
            Target::Captured(i) => {
                self.captured.set(i, Member::NotString);
                assert(member_views(self.captured@) =~= member_views(old(self).captured@).update(
                    i as int,
                    MemberView::NotString,
                ));
            },
            Target::Other => {},
        }
    }

    /// The opening quote of the string value of `target`.
    fn begin_text(&mut self, target: Target, out: &mut Output)
        requires
            old(self).wf(),
            target == value_target(old(self).scan(*old(out))),
        ensures
            final(self).same_setup(*old(self)),
            begin_value(old(self).scan(*old(out)), 0x22) == Ok::<Scan, Fail>(
                final(self).scan(*final(out)),
            ),
    {
        let role = match target {
            Target::Streamed => {
                out.restart = true;
                out.bytes.clear();
                self.streamed = Streamed::Text;
                Role::Streamed
            },
            Target::Captured(i) => {
                self.text.clear();
                self.text_long = false;
                Role::Captured(i)
            },
            Target::Other => Role::Skipped,
        };
        self.begin_string(role);
    }

    fn begin_value(&mut self, b: u8, out: &mut Output) -> (r: Result<(), Fail>)
        requires
            old(self).wf(),
        ensures
            final(self).same_setup(*old(self)),
            agrees(
                r,
                begin_value(old(self).scan(*old(out)), b),
                old(self).scan(*old(out)),
                final(self).scan(*final(out)),
            ),
    {
        // A value directly inside the top-level object belongs to `self.member`.
        let target = if self.stack.len() == 1 && self.stack[0] == Container::Object {
            self.member
        } else {
            Target::Other
        };
        if b == 0x22 {
            self.begin_text(target, out);
            return Ok(());
        }
        self.note_not_string(target);
        let ghost noted = self.scan(*out);
        if b == 0x7B || b == 0x5B {
            if self.stack.len() >= MAX_DEPTH {
                return Err(Fail::Syntax("recursion limit exceeded"));
            }
            if b == 0x7B {
                self.stack.push(Container::Object);
                self.state = State::ObjectStart;
            } else {
                self.stack.push(Container::Array);
                self.state = State::ArrayStart;
            }
        } else if b == 0x74 {
            self.literal = vec![0x72, 0x75, 0x65];
            assert(self.literal@ =~= seq![0x72u8, 0x75, 0x65]);
            self.state = State::Literal;
        } else if b == 0x66 {
            self.literal = vec![0x61, 0x6C, 0x73, 0x65];
            assert(self.literal@ =~= seq![0x61u8, 0x6C, 0x73, 0x65]);
            self.state = State::Literal;
        } else if b == 0x6E {
            self.literal = vec![0x75, 0x6C, 0x6C];
            assert(self.literal@ =~= seq![0x75u8, 0x6C, 0x6C]);
            self.state = State::Literal;
        } else if b == 0x2D || (0x30 <= b && b <= 0x39) {
            self.number.clear();
            self.number.push(b);
            assert(self.number@ =~= seq![b]);
            self.state = State::Number;
        } else {
            return Err(Fail::Syntax("expected a value"));
        }
        assert(begin_value(old(self).scan(*old(out)), b) == Ok::<Scan, Fail>(
            Scan {
                state: self.state,
                stack: self.stack@,
                literal: self.literal@,
                number: self.number@,
                ..noted
            },
        ));
        Ok(())
    }

    fn structural(&mut self, b: u8, out: &mut Output) -> (r: Result<(), Fail>)
        requires
            old(self).wf(),
        ensures
            final(self).same_setup(*old(self)),
            agrees(
                r,
                structural(old(self).scan(*old(out)), b),
                old(self).scan(*old(out)),
                final(self).scan(*final(out)),
            ),
    {
        assert(bounded(self.config(), self.scan(*out)));
        if b == 0x20 || b == 0x0A || b == 0x0D || b == 0x09 {
            return Ok(());
        }
        match self.state {
            State::Value => self.begin_value(b, out),
            State::ArrayStart => {
                if b == 0x5D {
                    self.close();
                    Ok(())
                } else {
                    self.begin_value(b, out)
                }
            },
            State::ObjectStart | State::Key => {
                if self.state == State::ObjectStart && b == 0x7D {
                    self.close();
                    Ok(())
                } else if b == 0x22 {
                    self.key.clear();
                    self.key_long = false;
                    self.first_key = self.state == State::ObjectStart;
                    self.begin_string(Role::Key);
                    Ok(())
                } else {
                    Err(Fail::Syntax("expected a string key"))
                }
            },
            State::Colon => {
                if b == 0x3A {
                    self.state = State::Value;
                    Ok(())
                } else {
                    Err(Fail::Syntax("expected ':'"))
                }
            },
            State::AfterValue => {
                let depth: usize = self.stack.len();
                if depth == 0 {
                    return Err(Fail::Syntax("expected ',' or a closing bracket"));
                }
                let inner = self.stack[depth - 1];
                let closing: u8 = if inner == Container::Object {
                    0x7D
                } else {
                    0x5D
                };
                if b == 0x2C {
                    self.state = if inner == Container::Object {
                        State::Key
                    } else {
                        State::Value
                    };
                    Ok(())
                } else if b == closing {
                    self.close();
                    Ok(())
                } else {
                    Err(Fail::Syntax("expected ',' or a closing bracket"))
                }
            },
            _ => Err(Fail::Syntax("trailing characters")),
        }
    }

    fn literal(&mut self, b: u8) -> (r: Result<(), Fail>)
        requires
            old(self).wf(),
        ensures
            final(self).same_setup(*old(self)),
            forall|out: Output|
                agrees(
                    r,
                    literal(old(self).scan(out), b),
                    old(self).scan(out),
                    #[trigger] final(self).scan(out),
                ),
    {
        if self.literal.len() > 0 && self.literal[0] == b {
            self.literal.remove(0);
            assert(self.literal@ =~= old(self).literal@.drop_first());
            if self.literal.len() == 0 {
                self.value_done();
            }
            Ok(())
        } else {
            Err(Fail::Syntax("invalid literal"))
        }
    }

    fn end_number(&mut self) -> (r: Result<(), Fail>)
        requires
            old(self).wf(),
        ensures
            final(self).same_setup(*old(self)),
            forall|out: Output|
                #![trigger old(self).scan(out)]
                #![trigger final(self).scan(out)]
                agrees(
                    r,
                    end_number(old(self).scan(out)),
                    old(self).scan(out),
                    final(self).scan(out),
                ),
            agrees(r, end_number(old(self).reader()), old(self).reader(), final(self).reader()),
            r is Err ==> final(self).state == old(self).state,
    {
        // serde_json parses numerals the same wherever they appear, so it decides (the grammar,
        // and whether the value fits).
        if !value_parses(self.number.as_slice()) {
            return Err(Fail::Syntax("invalid number"));
        }
        self.number.clear();
        assert(self.number@ =~= Seq::empty());
        self.state = if self.stack.len() == 0 {
            State::End
        } else {
            State::AfterValue
        };
        Ok(())
    }

    /// Collect a numeral from `input[i..]`; its end (not consumed) is left to `structural`.
    fn number(&mut self, input: &[u8], i: usize, Ghost(out): Ghost<Output>) -> (r: Result<
        usize,
        Fail,
    >)
        requires
            old(self).wf(),
            old(self).state == State::Number,
            i < input@.len(),
        ensures
            final(self).same_setup(*old(self)),
            ({
                let c = old(self).config();
                let whole = run_from(c, old(self).scan(out), input@, i as nat, i as nat);
                match r {
                    Ok(j) => {
                        let s = old(self).scan(out);
                        let t = Scan {
                            number: s.number + input@.subrange(i as int, j as int),
                            ..s
                        };
                        &&& i <= j <= input@.len()
                        &&& forall|k: int| i <= k < j ==> is_numeral_byte(#[trigger] input@[k])
                        &&& if j == input@.len() {
                            final(self).scan(out) == t
                        } else {
                            &&& !is_numeral_byte(input@[j as int])
                            &&& end_number(t) == Ok::<Scan, Fail>(final(self).scan(out))
                        }
                        &&& whole == run_from(c, final(self).scan(out), input@, j as nat, i as nat)
                    },
                    Err(fail) => whole == Err::<Scan, Stop>(
                        Stop { fail, at: i as nat, restart: out.restart, bytes: out.bytes@ },
                    ),
                }
            }),
    {
        let mut j: usize = i;
        while j < input.len() && (0x30 <= input[j] && input[j] <= 0x39 || input[j] == 0x2D
            || input[j] == 0x2B || input[j] == 0x2E || input[j] == 0x65 || input[j] == 0x45)
            invariant
                i <= j <= input@.len(),
                forall|k: int| i <= k < j ==> is_numeral_byte(#[trigger] input@[k]),
            decreases input@.len() - j,
        {
            j += 1;
        }
        let ghost c = self.config();
        let ghost s = self.scan(out);
        proof {
            lemma_numeral_run(c, s, input@, i as nat, j as nat, i as nat);
        }
        if self.number.len() > MAX_NUMBER - 1 && j > i || j - i > MAX_NUMBER
            || self.number.len() + (j - i) > MAX_NUMBER {
            return Err(Fail::TooLong("numeral"));
        }
        self.number.extend_from_slice(slice_subrange(input, i, j));
        let ghost t = Scan { number: s.number + input@.subrange(i as int, j as int), ..s };
        assert(self.number@ =~= t.number);
        assert(self.scan(out) == t);
        if j < input.len() {
            self.end_number()?;
            proof {
                let u = self.scan(out);
                assert(end_number(t) == Ok::<Scan, Fail>(u));
                let b = input@[j as int];
                assert(step(c, t, b) == refused(structural(u, b), false));
                assert(step(c, u, b) == refused(structural(u, b), false));
                if let Ok(v) = structural(u, b) {
                    assert(!in_token(v.state));
                }
            }
        }
        Ok(j)
    }

    fn emit(&mut self, bytes: &[u8], out: &mut Output)
        requires
            old(self).wf(),
        ensures
            final(self).same_setup(*old(self)),
            final(self).scan(*final(out)) == emit(
                old(self).config(),
                old(self).scan(*old(out)),
                bytes@,
            ),
    {
        match self.role {
            Role::Key => {
                if bytes.len() > KEY_CAP || self.key.len() + bytes.len() > KEY_CAP {
                    self.key_long = true;
                } else if !self.key_long {
                    self.key.extend_from_slice(bytes);
                    assert(self.key@ =~= old(self).key@ + bytes@);
                }
            },
            Role::Streamed => {
                out.bytes.extend_from_slice(bytes);
                assert(out.bytes@ =~= old(out).bytes@ + bytes@);
            },
            Role::Captured(_) => {
                if bytes.len() > self.capture_cap || self.text.len() > self.capture_cap
                    - bytes.len() {
                    self.text_long = true;
                    self.text = Vec::new();
                } else if !self.text_long {
                    self.text.extend_from_slice(bytes);
                    assert(self.text@ =~= old(self).text@ + bytes@);
                }
            },
            Role::Skipped => {},
        }
    }

    fn end_string(&mut self) -> (r: Result<(), Fail>)
        requires
            old(self).wf(),
        ensures
            final(self).same_setup(*old(self)),
            forall|out: Output|
                agrees(
                    r,
                    end_string(old(self).config(), old(self).scan(out)),
                    old(self).scan(out),
                    #[trigger] final(self).scan(out),
                ),
    {
        match self.role {
            Role::Key => {
                if self.first_key && !self.key_long && same_bytes(
                    self.key.as_slice(),
                    RAW_VALUE_TOKEN.as_bytes(),
                ) {
                    return Err(Fail::Syntax("serde_json RawValue marker key not supported"));
                }
                if self.stack.len() == 1 {
                    self.member = self.target();
                }
                self.state = State::Colon;
                return Ok(());
            },
            Role::Captured(i) => {
                if self.text_long {
                    self.captured.set(i, Member::TooLong);
                    assert(member_views(self.captured@) =~= member_views(
                        old(self).captured@,
                    ).update(i as int, MemberView::TooLong));
                } else {
                    match utf8_str(self.text.as_slice()) {
                        Some(t) => {
                            proof {
                                encode_utf8_decode_utf8(t@);
                            }
                            let ghost m = MemberView::Text(t@);
                            let t = t.to_owned();
                            self.text.clear();
                            self.captured.set(i, Member::Text(t));
                            assert(member_views(self.captured@) =~= member_views(
                                old(self).captured@,
                            ).update(i as int, m));
                            assert(self.text@ =~= Seq::empty());
                        },
                        None => {
                            return Err(Fail::Syntax("invalid UTF-8 in string"));
                        },
                    }
                }
            },
            Role::Streamed | Role::Skipped => {},
        }
        self.value_done();
        Ok(())
    }

    /// The member that the key just read names.
    fn target(&self) -> (r: Target)
        requires
            self.wf(),
        ensures
            forall|out: Output| r == target_of(self.config(), (#[trigger] self.scan(out)).key),
            r matches Target::Captured(i) ==> i < self.captured@.len(),
    {
        if self.key_long {
            return Target::Other;
        }
        if same_bytes(self.key.as_slice(), self.streamed_key) {
            return Target::Streamed;
        }
        let ghost keys = self.config().capture_keys;
        let mut i: usize = 0;
        while i < self.capture_keys.len()
            invariant
                i <= self.capture_keys@.len(),
                self.wf(),
                !self.key_long,
                self.key@ != self.streamed_key@,
                keys == self.config().capture_keys,
                forall|j: int| 0 <= j < i ==> keys[j] != self.key@,
            decreases self.capture_keys@.len() - i,
        {
            if same_bytes(self.capture_keys[i].as_bytes(), self.key.as_slice()) {
                proof {
                    assert(keys[i as int] == self.key@);
                    keys.index_of_first_ensures(self.key@);
                }
                return Target::Captured(i);
            }
            i += 1;
        }
        Target::Other
    }

    fn error(&self, fail: Fail, i: usize) -> (r: ScanError)
        requires
            self.offset + i <= u64::MAX,
        ensures
            r == placed(fail, self.consumed() + i as nat),
    {
        match fail {
            Fail::Syntax(what) => ScanError::Syntax { at: self.offset + i as u64, what },
            Fail::TooLong(what) => ScanError::TooLong { what },
        }
    }
}

impl JsonScanner {
    /// One byte of string content.
    fn string_byte(&mut self, b: u8, out: &mut Output) -> (r: Result<(), Fail>)
        requires
            old(self).wf(),
        ensures
            final(self).same_setup(*old(self)),
            agrees(
                r,
                string(old(self).config(), old(self).scan(*old(out)), b),
                old(self).scan(*old(out)),
                final(self).scan(*final(out)),
            ),
    {
        match self.esc {
            Esc::Plain => {
                if self.utf8_need > 0 {
                    if b < self.utf8_lo || self.utf8_hi < b {
                        return Err(Fail::Syntax("invalid UTF-8 in string"));
                    }
                    self.utf8_need = self.utf8_need - 1;
                    self.utf8_lo = 0x80;
                    self.utf8_hi = 0xBF;
                    self.emit_byte(b, out);
                    Ok(())
                } else if b == 0x22 {
                    self.end_string()
                } else if b == 0x5C {
                    self.esc = Esc::Backslash;
                    Ok(())
                } else if b < 0x20 {
                    Err(Fail::Syntax("control character in string"))
                } else if b < 0x80 {
                    self.emit_byte(b, out);
                    Ok(())
                } else {
                    // No overlong forms, surrogates or code points past U+10FFFF.
                    match lead_of(b) {
                        Some((need, lo, hi)) => {
                            self.utf8_need = need;
                            self.utf8_lo = lo;
                            self.utf8_hi = hi;
                            self.emit_byte(b, out);
                            Ok(())
                        },
                        None => Err(Fail::Syntax("invalid UTF-8 in string")),
                    }
                }
            },
            Esc::Backslash => {
                if b == 0x75 {
                    self.esc = Esc::Hex { n: 0, digits: 0, lead: None };
                    return Ok(());
                }
                let e: u8 = match b {
                    0x22 => 0x22,
                    0x5C => 0x5C,
                    0x2F => 0x2F,
                    0x62 => 0x08,
                    0x66 => 0x0C,
                    0x6E => 0x0A,
                    0x72 => 0x0D,
                    0x74 => 0x09,
                    _ => {
                        return Err(Fail::Syntax("invalid escape"));
                    },
                };
                self.esc = Esc::Plain;
                self.emit_byte(e, out);
                Ok(())
            },
            Esc::Hex { n, digits, lead } => self.hex_digit(b, n, digits, lead, out),
            Esc::Low { high, backslash } => {
                if !backslash && b == 0x5C {
                    self.esc = Esc::Low { high, backslash: true };
                    Ok(())
                } else if backslash && b == 0x75 {
                    self.esc = Esc::Hex { n: 0, digits: 0, lead: Some(high) };
                    Ok(())
                } else {
                    Err(Fail::Syntax("unpaired surrogate escape"))
                }
            },
        }
    }

    fn emit_byte(&mut self, b: u8, out: &mut Output)
        requires
            old(self).wf(),
        ensures
            final(self).same_setup(*old(self)),
            final(self).scan(*final(out)) == emit(
                old(self).config(),
                old(self).scan(*old(out)),
                seq![b],
            ),
    {
        let one = vec![b];
        assert(one@ =~= seq![b]);
        self.emit(one.as_slice(), out);
    }

    /// One digit of a `\u` escape. A surrogate escape must be a high one directly followed by a
    /// low one.
    fn hex_digit(
        &mut self,
        b: u8,
        n: u16,
        digits: u8,
        lead: Option<u16>,
        out: &mut Output,
    ) -> (r: Result<(), Fail>)
        requires
            old(self).wf(),
            old(self).esc == (Esc::Hex { n, digits, lead }),
        ensures
            final(self).same_setup(*old(self)),
            agrees(
                r,
                string(old(self).config(), old(self).scan(*old(out)), b),
                old(self).scan(*old(out)),
                final(self).scan(*final(out)),
            ),
    {
        let d: u16 = if 0x30 <= b && b <= 0x39 {
            (b - 0x30) as u16
        } else if 0x41 <= b && b <= 0x46 {
            (b - 0x41 + 10) as u16
        } else if 0x61 <= b && b <= 0x66 {
            (b - 0x61 + 10) as u16
        } else {
            return Err(Fail::Syntax("invalid escape"));
        };
        let n: u16 = n * 16 + d;
        let byte = due_byte(lead, n, digits + 1);
        if digits < 3 {
            self.esc = Esc::Hex { n, digits: digits + 1, lead };
        } else {
            let low = 0xDC00 <= n && n <= 0xDFFF;
            if lead.is_none() && 0xD800 <= n && n <= 0xDBFF {
                self.esc = Esc::Low { high: n, backslash: false };
            } else if lead.is_some() == low {
                self.esc = Esc::Plain;
            } else {
                return Err(Fail::Syntax("unpaired surrogate escape"));
            }
        }
        if let Some(e) = byte {
            self.emit_byte(e, out);
        }
        Ok(())
    }

    /// Scan string content from `input[i..]`; returns where it stopped (the end of the input, or
    /// just past the closing quote).
    fn string(&mut self, input: &[u8], i: usize, out: &mut Output) -> (r: Result<usize, Fail>)
        requires
            old(self).wf(),
            old(self).state == State::Str,
            i <= input@.len(),
        ensures
            final(self).same_setup(*old(self)),
            ({
                let c = old(self).config();
                let s = old(self).scan(*old(out));
                let whole = run_from(c, s, input@, i as nat, i as nat);
                match r {
                    Ok(j) => {
                        &&& i <= j <= input@.len()
                        &&& run_part(c, s, input@, i as nat, j as nat) == Ok::<Scan, Stop>(
                            final(self).scan(*final(out)),
                        )
                        // The string was open after every shorter part. It is now closed by the
                        // quote just before `j`, or still open at the end of the input.
                        &&& forall|k: nat|
                            i <= k < j ==> ((#[trigger] run_part(c, s, input@, i as nat, k))
                                matches Ok(t) && t.state == State::Str)
                        &&& if final(self).state == State::Str {
                            j == input@.len()
                        } else {
                            i < j && input@[j - 1] == 0x22
                        }
                        &&& !in_token(final(self).state) || j == input@.len()
                        &&& whole == run_from(
                            c,
                            final(self).scan(*final(out)),
                            input@,
                            j as nat,
                            i as nat,
                        )
                    },
                    Err(fail) => whole == Err::<Scan, Stop>(
                        Stop {
                            fail,
                            at: i as nat,
                            restart: final(out).restart,
                            bytes: final(out).bytes@,
                        },
                    ),
                }
            }),
    {
        let ghost c = self.config();
        let ghost s = self.scan(*out);
        let ghost whole = run_from(c, s, input@, i as nat, i as nat);
        let mut j: usize = i;
        while j < input.len()
            invariant
                i <= j <= input@.len(),
                self.same_setup(*old(self)),
                self.state == State::Str,
                c == self.config(),
                s == old(self).scan(*old(out)),
                whole == run_from(c, s, input@, i as nat, i as nat),
                whole == run_from(c, self.scan(*out), input@, j as nat, i as nat),
                run_part(c, s, input@, i as nat, j as nat) == Ok::<Scan, Stop>(self.scan(*out)),
                forall|k: nat|
                    i <= k <= j ==> ((#[trigger] run_part(c, s, input@, i as nat, k)) matches Ok(t)
                        && t.state == State::Str),
            decreases input@.len() - j,
        {
            let b: u8 = input[j];
            let ghost t = self.scan(*out);
            let ghost from = j as nat;
            if self.esc == Esc::Plain && self.utf8_need == 0 && 0x20 <= b && b < 0x80 && b != 0x22
                && b != 0x5C {
                // A run of plain ASCII in one go (the bulk of a base64 blob).
                let start: usize = j;
                while j < input.len() && 0x20 <= input[j] && input[j] < 0x80 && input[j] != 0x22
                    && input[j] != 0x5C
                    invariant
                        start <= j <= input@.len(),
                        forall|k: int| start <= k < j ==> is_plain(#[trigger] input@[k]),
                    decreases input@.len() - j,
                {
                    j += 1;
                }
                proof {
                    lemma_plain_run(c, t, input@, from, j as nat, i as nat);
                    lemma_plain_part(c, s, input@, i as nat, from, j as nat);
                }
                assert(j > start);
                self.emit(slice_subrange(input, start, j), out);
            } else {
                let r = self.string_byte(b, out);
                proof {
                    lemma_one_more(c, s, input@, i as nat, from, i as nat);
                }
                j += 1;
                match r {
                    Err(f) => {
                        return Err(f);
                    },
                    Ok(()) => {
                        if self.state != State::Str {
                            return Ok(j);
                        }
                    },
                }
            }
        }
        Ok(j)
    }

    /// Consume the next chunk of the document. Streamed-member bytes are appended to `out.bytes`
    /// (at most `input.len()` of them: an escaped character goes out byte by byte, each as soon as it
    /// is settled). Stops at the first error; the output may then end within a character.
    pub fn feed(&mut self, input: &[u8], out: &mut Output) -> (r: Result<(), ScanError>)
        requires
            old(self).wf(),
            old(self).consumed() + input@.len() <= u64::MAX,
        ensures
            final(self).wf(),
            feeds(
                *old(self),
                (old(out).restart, old(out).bytes@),
                input@,
                *final(self),
                (final(out).restart, final(out).bytes@),
                r,
            ),
            final(out).bytes@.len() <= old(out).bytes@.len() + input@.len(),
    {
        proof {
            lemma_output_growth(self.config(), self.scan(*out), input@, 0, 0);
        }
        let ghost c = self.config();
        let ghost whole = run(c, self.scan(*out), input@);
        let ghost mut mark: nat = 0;
        let mut i: usize = 0;
        while i < input.len()
            invariant
                i <= input@.len(),
                self.same_setup(*old(self)),
                old(self).consumed() + input@.len() <= u64::MAX,
                c == self.config(),
                in_token(self.state) && i < input@.len() ==> mark == i,
                whole == run(c, old(self).scan(*old(out)), input@),
                whole == run_from(c, self.scan(*out), input@, i as nat, mark),
                match whole {
                    Ok(t) => t.bytes.len() <= old(out).bytes@.len() + input@.len(),
                    Err(stop) => stop.bytes.len() <= old(out).bytes@.len() + input@.len(),
                },
            decreases
                input@.len() - i,
                if in_token(self.state) {
                    1int
                } else {
                    0int
                },
        {
            let ghost s = self.scan(*out);
            let step = match self.state {
                State::Str => self.string(input, i, out),
                State::Number => self.number(input, i, Ghost(*out)),
                State::Literal => match self.literal(input[i]) {
                    Ok(()) => Ok(i + 1),
                    Err(f) => Err(f),
                },
                _ => match self.structural(input[i], out) {
                    Ok(()) => Ok(i + 1),
                    Err(f) => Err(f),
                },
            };
            match step {
                Err(f) => {
                    return Err(self.error(f, i));
                },
                Ok(j) => {
                    proof {
                        if in_token(s.state) {
                            if !in_token(self.state) {
                                lemma_mark_unused(
                                    c,
                                    self.scan(*out),
                                    input@,
                                    j as nat,
                                    i as nat,
                                    j as nat,
                                );
                            }
                        } else {
                            let m = if in_token(self.state) {
                                (i + 1) as nat
                            } else {
                                mark
                            };
                            assert(whole == run_from(c, self.scan(*out), input@, j as nat, m));
                            if !in_token(self.state) {
                                lemma_mark_unused(
                                    c,
                                    self.scan(*out),
                                    input@,
                                    j as nat,
                                    m,
                                    j as nat,
                                );
                            }
                        }
                        if !in_token(s.state) || !in_token(self.state) {
                            mark = j as nat;
                        }
                    }
                    i = j;
                },
            }
        }
        self.offset = self.offset + input.len() as u64;
        Ok(())
    }

    /// End of the document: it must be complete.
    pub fn finish(self) -> (r: Result<Scanned, ScanError>)
        requires
            self.wf(),
        ensures
            finishes(self, r),
    {
        let mut this = self;
        if this.state == State::Number {
            // A top-level numeral ends at the end of the document.
            match this.end_number() {
                Err(f) => {
                    return Err(this.error(f, 0));
                },
                Ok(()) => {},
            }
        }
        if this.state != State::End {
            return Err(ScanError::Syntax { at: this.offset, what: "unexpected end of input" });
        }
        Ok(Scanned { captured: this.captured, streamed: this.streamed })
    }
}

/// What follows a leading byte of UTF-8.
fn lead_of(b: u8) -> (r: Option<(u8, u8, u8)>)
    ensures
        r == utf8_lead(b),
{
    if 0xC2 <= b && b <= 0xDF {
        Some((1, 0x80, 0xBF))
    } else if b == 0xE0 {
        Some((2, 0xA0, 0xBF))
    } else if b == 0xED {
        Some((2, 0x80, 0x9F))
    } else if 0xE1 <= b && b <= 0xEF {
        Some((2, 0x80, 0xBF))
    } else if b == 0xF0 {
        Some((3, 0x90, 0xBF))
    } else if 0xF1 <= b && b <= 0xF3 {
        Some((3, 0x80, 0xBF))
    } else if b == 0xF4 {
        Some((3, 0x80, 0x8F))
    } else {
        None
    }
}

/// The byte that a digit of a `\u` escape settles.
fn due_byte(lead: Option<u16>, n: u16, digits: u8) -> (r: Option<u8>)
    requires
        1 <= digits <= 4,
        n < (if digits == 1 {
            0x10int
        } else if digits == 2 {
            0x100
        } else if digits == 3 {
            0x1000
        } else {
            0x1_0000
        }),
    ensures
        r == due(lead, n, digits),
{
    match lead {
        None => {
            if digits == 1 {
                if n == 0 || n == 0xD {
                    None
                } else {
                    Some((0xE0 + n) as u8)
                }
            } else if digits == 2 {
                if 0x08 <= n && n < 0x10 {
                    Some(0xE0)
                } else if 0xD0 <= n && n < 0xD8 {
                    Some(0xED)
                } else {
                    None
                }
            } else if digits == 3 {
                if n < 0x008 || (0xDC0 <= n && n < 0xE00) {
                    None
                } else if n < 0x080 {
                    Some((0xC0 + n / 4) as u8)
                } else if 0xD80 <= n && n < 0xDC0 {
                    Some((0xF0 + ((n - 0xD80) / 4 + 1) / 4) as u8)
                } else {
                    Some((0x80 + n / 4 % 64) as u8)
                }
            } else {
                if n < 0x0080 {
                    Some(n as u8)
                } else if 0xD800 <= n && n <= 0xDBFF {
                    Some((0x80 + ((n - 0xD800) / 64 + 1) % 4 * 16 + n / 4 % 16) as u8)
                } else {
                    Some((0x80 + n % 64) as u8)
                }
            }
        },
        Some(high) => {
            if digits == 3 && 0xDC0 <= n && n < 0xE00 {
                Some((0x80 + high % 4 * 16 + (n - 0xDC0) / 4) as u8)
            } else if digits == 4 {
                Some((0x80 + n % 64) as u8)
            } else {
                None
            }
        },
    }
}

} // verus!

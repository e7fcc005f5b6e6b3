//! Which documents [`crate::json_scan`] accepts, and what it reports of them.
//!
//! [`document`] reads a JSON text (RFC 8259) the way one would describe it: a value between
//! whitespace, made of strings, numerals, words, arrays and objects. Containers nest at most
//! [`MAX_DEPTH`] deep, strings are valid UTF-8 with surrogate escapes in pairs only, and a
//! numeral is one that serde_json takes. The proofs here show that the reader, fed a text in any
//! pieces, accepts it exactly where [`document`] reads a value in it, and reports of each member
//! asked for its last occurrence.
//!
//! Whole documents are never handed to serde_json, so nothing here speaks of what it would say of
//! them: that it takes the same ones (but for numerals over [`MAX_NUMBER`] bytes and its own mark for
//! raw values) is what the tests compare.

use vstd::prelude::*;
use vstd::utf8::*;

use crate::json_scan;
use crate::json_scan::{
    Config, Container, Esc, JsonScanner, MAX_DEPTH, MAX_NUMBER, KEY_CAP, MemberView,
    RAW_VALUE_TOKEN, Role, Scan, ScanError, Scanned, State, Streamed, Target,
};

verus! {

/// A JSON value. Strings are unescaped, in UTF-8.
pub enum Json {
    Text(Seq<u8>),
    Numeral(Seq<u8>),
    Word(Seq<u8>),
    Array(Seq<Json>),
    Object(Seq<(Seq<u8>, Json)>),
}

/// The first place from `i` on that holds no whitespace.
pub open spec fn past_space(b: Seq<u8>, i: nat) -> nat
    decreases b.len() - i,
{
    if i < b.len() && json_scan::is_space(b[i as int]) {
        past_space(b, i + 1)
    } else {
        i
    }
}

/// The four hexadecimal digits at `i`.
pub open spec fn unit_at(b: Seq<u8>, i: nat) -> Option<u16> {
    if i + 4 > b.len() {
        None
    } else {
        match (
            json_scan::hex_value(b[i as int]),
            json_scan::hex_value(b[i as int + 1]),
            json_scan::hex_value(b[i as int + 2]),
            json_scan::hex_value(b[i as int + 3]),
        ) {
            (Some(w), Some(x), Some(y), Some(z)) => Some(
                (w * 0x1000 + x * 0x100 + y * 0x10 + z) as u16,
            ),
            _ => None,
        }
    }
}

/// What the escape whose backslash stands just before `i` comes to, and where it ends.
pub open spec fn escape_at(b: Seq<u8>, i: nat) -> Option<(Seq<u8>, nat)> {
    if i >= b.len() {
        None
    } else if b[i as int] == 0x75 {
        match unit_at(b, i + 1) {
            None => None,
            Some(n) => if json_scan::is_high_surrogate(n) {
                if i + 7 <= b.len() && b[i as int + 5] == 0x5C && b[i as int + 6] == 0x75 {
                    match unit_at(b, i + 7) {
                        Some(m) => if json_scan::is_low_surrogate(m) {
                            Some((encode_scalar(json_scan::paired(n, m)), i + 11))
                        } else {
                            None
                        },
                        None => None,
                    }
                } else {
                    None
                }
            } else if json_scan::is_low_surrogate(n) {
                None
            } else {
                Some((encode_scalar(n as u32), i + 5))
            },
        }
    } else {
        match json_scan::escaped(b[i as int]) {
            Some(e) => Some((seq![e], i + 1)),
            None => None,
        }
    }
}

/// The character (or escape) of a string at `i`, unescaped, and where it ends.
pub open spec fn char_at(b: Seq<u8>, i: nat) -> Option<(Seq<u8>, nat)> {
    if i >= b.len() {
        None
    } else if b[i as int] == 0x5C {
        escape_at(b, i + 1)
    } else if b[i as int] < 0x20 {
        None
    } else {
        let rest = b.skip(i as int);
        if valid_first_scalar(rest) {
            Some((take_first_scalar(rest), (i + length_of_first_scalar(rest)) as nat))
        } else {
            None
        }
    }
}

/// What the string whose opening quote stands just before `i` holds, and where it ends.
pub open spec fn string_at(b: Seq<u8>, i: nat) -> Option<(Seq<u8>, nat)>
    decreases b.len() - i,
{
    if i >= b.len() {
        None
    } else if b[i as int] == 0x22 {
        Some((Seq::empty(), i + 1))
    } else {
        match char_at(b, i) {
            None => None,
            Some((t, e)) => if e <= i {
                None
            } else {
                match string_at(b, e) {
                    None => None,
                    Some((u, f)) => Some((t + u, f)),
                }
            },
        }
    }
}

/// The end of the run of numeral bytes from `i` on.
pub open spec fn numeral_end(b: Seq<u8>, i: nat) -> nat
    decreases b.len() - i,
{
    if i < b.len() && json_scan::is_numeral_byte(b[i as int]) {
        numeral_end(b, i + 1)
    } else {
        i
    }
}

/// `true`, `false` and `null`, by their first letters.
pub open spec fn word_of(b: u8) -> Option<Seq<u8>> {
    if b == 0x74 {
        Some(seq![0x74u8, 0x72, 0x75, 0x65])
    } else if b == 0x66 {
        Some(seq![0x66u8, 0x61, 0x6C, 0x73, 0x65])
    } else if b == 0x6E {
        Some(seq![0x6Eu8, 0x75, 0x6C, 0x6C])
    } else {
        None
    }
}

/// Whether `w` stands at `i`.
pub open spec fn stands_at(b: Seq<u8>, i: nat, w: Seq<u8>) -> bool {
    i + w.len() <= b.len() && b.subrange(i as int, (i + w.len()) as int) == w
}

/// Where [`past_space`] stops.
pub proof fn lemma_past_space(b: Seq<u8>, i: nat)
    ensures
        past_space(b, i) >= i,
        past_space(b, i) < b.len() ==> !json_scan::is_space(b[past_space(b, i) as int]),
        i <= b.len() ==> past_space(b, i) <= b.len(),
    decreases b.len() - i,
{
    if i < b.len() && json_scan::is_space(b[i as int]) {
        lemma_past_space(b, i + 1);
    }
}

/// A string takes at least its closing quote.
pub proof fn lemma_string_advances(b: Seq<u8>, i: nat)
    ensures
        string_at(b, i) matches Some((_, e)) ==> i < e,
    decreases b.len() - i,
{
    if i < b.len() && b[i as int] != 0x22 {
        if let Some((_, e)) = char_at(b, i) {
            if e > i {
                lemma_string_advances(b, e);
            }
        }
    }
}

/// The value that begins at `i`, inside `depth` containers, and where it ends.
pub open spec fn value_at(b: Seq<u8>, i: nat, depth: nat) -> Option<(Json, nat)>
    decreases b.len() - i, 0int,
{
    if i >= b.len() {
        None
    } else if b[i as int] == 0x22 {
        match string_at(b, i + 1) {
            Some((t, e)) => Some((Json::Text(t), e)),
            None => None,
        }
    } else if b[i as int] == 0x7B || b[i as int] == 0x5B {
        proof {
            lemma_past_space(b, i + 1);
        }
        let k = past_space(b, i + 1);
        let object = b[i as int] == 0x7B;
        if depth >= MAX_DEPTH || k >= b.len() {
            None
        } else if object && b[k as int] == 0x7D {
            Some((Json::Object(Seq::empty()), k + 1))
        } else if object {
            match members_at(b, k, depth + 1, true) {
                Some((ms, e)) => Some((Json::Object(ms), e)),
                None => None,
            }
        } else if b[k as int] == 0x5D {
            Some((Json::Array(Seq::empty()), k + 1))
        } else {
            match elements_at(b, k, depth + 1) {
                Some((vs, e)) => Some((Json::Array(vs), e)),
                None => None,
            }
        }
    } else if let Some(w) = word_of(b[i as int]) {
        if stands_at(b, i, w) {
            Some((Json::Word(w), i + w.len()))
        } else {
            None
        }
    } else if b[i as int] == 0x2D || 0x30 <= b[i as int] <= 0x39 {
        let e = numeral_end(b, i);
        let n = b.subrange(i as int, e as int);
        if n.len() <= MAX_NUMBER && json_scan::serde_json_accepts(n) {
            Some((Json::Numeral(n), e))
        } else {
            None
        }
    } else {
        None
    }
}

/// The elements of an array from the one at `k` to the closing bracket, and where that ends.
pub open spec fn elements_at(b: Seq<u8>, k: nat, depth: nat) -> Option<(Seq<Json>, nat)>
    decreases b.len() - k, 1int,
{
    match value_at(b, k, depth) {
        None => None,
        Some((j, e)) => {
            proof {
                lemma_past_space(b, e);
                lemma_past_space(b, past_space(b, e) + 1);
            }
            let f = past_space(b, e);
            let n = past_space(b, f + 1);
            if e <= k || f >= b.len() {
                None
            } else if b[f as int] == 0x5D {
                Some((seq![j], f + 1))
            } else if b[f as int] == 0x2C && n < b.len() {
                match elements_at(b, n, depth) {
                    Some((rest, g)) => Some((seq![j] + rest, g)),
                    None => None,
                }
            } else {
                None
            }
        },
    }
}

/// The members of an object from the key at `k` to the closing brace, and where that ends.
/// serde_json's mark for raw values is no first key.
pub open spec fn members_at(b: Seq<u8>, k: nat, depth: nat, first: bool) -> Option<
    (Seq<(Seq<u8>, Json)>, nat),
>
    decreases b.len() - k, 1int,
{
    if k >= b.len() || b[k as int] != 0x22 {
        None
    } else {
        match string_at(b, k + 1) {
            None => None,
            Some((key, d)) => {
                proof {
                    lemma_string_advances(b, k + 1);
                    lemma_past_space(b, d);
                    lemma_past_space(b, past_space(b, d) + 1);
                }
                let colon = past_space(b, d);
                let v = past_space(b, colon + 1);
                if first && key == encode_utf8(RAW_VALUE_TOKEN@) {
                    None
                } else if v >= b.len() || b[colon as int] != 0x3A {
                    None
                } else {
                    match value_at(b, v, depth) {
                        None => None,
                        Some((j, e)) => {
                            proof {
                                lemma_past_space(b, e);
                                lemma_past_space(b, past_space(b, e) + 1);
                            }
                            let f = past_space(b, e);
                            let n = past_space(b, f + 1);
                            if e <= v || f >= b.len() {
                                None
                            } else if b[f as int] == 0x7D {
                                Some((seq![(key, j)], f + 1))
                            } else if b[f as int] == 0x2C && n < b.len() {
                                match members_at(b, n, depth, false) {
                                    Some((rest, g)) => Some((seq![(key, j)] + rest, g)),
                                    None => None,
                                }
                            } else {
                                None
                            }
                        },
                    }
                }
            },
        }
    }
}

/// The value that a text holds: one, between whitespace, and nothing else.
pub open spec fn document(b: Seq<u8>) -> Option<Json> {
    match value_at(b, past_space(b, 0), 0) {
        Some((j, e)) => if past_space(b, e) >= b.len() {
            Some(j)
        } else {
            None
        },
        None => None,
    }
}

/// What a reader has found once a document is complete.
pub struct Found {
    pub captured: Seq<MemberView>,
    pub streamed: Streamed,
    /// Whether a streamed string began.
    pub restart: bool,
    /// The bytes of the last streamed string.
    pub bytes: Seq<u8>,
}

/// The state that `b[i..]` leads to from `s`, if no byte of it is refused.
pub open spec fn land(c: Config, s: Scan, b: Seq<u8>, i: nat) -> Option<Scan>
    decreases b.len() - i,
{
    if i >= b.len() {
        Some(s)
    } else {
        match json_scan::step(c, s, b[i as int]) {
            Err(_) => None,
            Ok(t) => land(c, t, b, i + 1),
        }
    }
}

/// What a document that ends with `b[i..]`, read from `s`, comes to.
#[verifier::opaque]
pub open spec fn outcome(c: Config, s: Scan, b: Seq<u8>, i: nat) -> Option<Found> {
    match land(c, s, b, i) {
        None => None,
        Some(t) => match json_scan::finished(t, b.len()) {
            Err(_) => None,
            Ok((captured, streamed)) => Some(
                Found { captured, streamed, restart: t.restart, bytes: t.bytes },
            ),
        },
    }
}

/// Reading byte by byte gives what reading the chunk gives.
proof fn lemma_land_is_run(c: Config, s: Scan, b: Seq<u8>, i: nat, mark: nat)
    ensures
        land(c, s, b, i) == (match json_scan::run_from(c, s, b, i, mark) {
            Ok(t) => Some(t),
            Err(_) => None,
        }),
    decreases b.len() - i,
{
    if i < b.len() {
        if let Ok(t) = json_scan::step(c, s, b[i as int]) {
            let m = if json_scan::in_token(t.state) && !json_scan::in_token(s.state) {
                i + 1
            } else {
                mark
            };
            lemma_land_is_run(c, t, b, i + 1, m);
        }
    }
}

/// The state inside a string, between two characters.
spec fn in_text(c: Config, s: Scan) -> bool {
    &&& json_scan::bounded(c, s)
    &&& s.state == State::Str
    &&& s.esc == Esc::Plain
    &&& s.need == 0
    &&& s.lo == 0x80
    &&& s.hi == 0xBF
}

/// One transition, on a byte that is there.
proof fn lemma_step(c: Config, s: Scan, b: Seq<u8>, i: nat)
    requires
        i < b.len(),
    ensures
        json_scan::step(c, s, b[i as int]) matches Ok(t) ==> outcome(c, s, b, i) == outcome(
            c,
            t,
            b,
            i + 1,
        ),
        json_scan::step(c, s, b[i as int]) is Err ==> outcome(c, s, b, i) is None,
{
    reveal(outcome);
}

proof fn lemma_cut_short(c: Config, s: Scan, b: Seq<u8>, i: nat)
    requires
        i >= b.len(),
        s.state != State::Number,
        s.state != State::End,
    ensures
        outcome(c, s, b, i) is None,
{
    reveal(outcome);
}

/// Which bytes begin a valid UTF-8 sequence of more than one byte, by the ranges of its bytes.
proof fn lemma_utf8_ranges(b: Seq<u8>)
    requires
        b.len() > 0,
        b[0] >= 0x80,
    ensures
        valid_first_scalar(b) <==> (match json_scan::utf8_lead(b[0]) {
            None => false,
            Some((need, lo, hi)) => {
                &&& b.len() > need
                &&& lo <= b[1] <= hi
                &&& need >= 2 ==> 0x80 <= b[2] <= 0xBF
                &&& need >= 3 ==> 0x80 <= b[3] <= 0xBF
            },
        }),
        json_scan::utf8_lead(b[0]) matches Some((need, _, _)) ==> valid_first_scalar(b)
            ==> length_of_first_scalar(b) == need + 1,
{
    let b0 = b[0];
    let b1 = if b.len() > 1 { b[1] } else { 0u8 };
    let b2 = if b.len() > 2 { b[2] } else { 0u8 };
    let b3 = if b.len() > 3 { b[3] } else { 0u8 };
    assert(0xc0 <= b0 <= 0xdf && 0x80 <= b1 <= 0xbf ==> {
        let cp = (((b0 & 0x1F) as u32) << 6) | ((b1 & 0x3f) as u32);
        (cp >= 0x80 <==> b0 >= 0xC2) && cp < 0xD800
    }) by (bit_vector);
    assert(0xe0 <= b0 <= 0xef && 0x80 <= b1 <= 0xbf && 0x80 <= b2 <= 0xbf ==> {
        let cp = (((b0 & 0x0F) as u32) << 12) | (((b1 & 0x3f) as u32) << 6) | ((b2 & 0x3f) as u32);
        (cp >= 0x800 && !(0xD800 <= cp && cp <= 0xDFFF)) <==> (if b0 == 0xE0 {
            b1 >= 0xA0
        } else if b0 == 0xED {
            b1 <= 0x9F
        } else {
            true
        })
    }) by (bit_vector);
    assert(0xf0 <= b0 <= 0xf7 && 0x80 <= b1 <= 0xbf && 0x80 <= b2 <= 0xbf && 0x80 <= b3 <= 0xbf
        ==> {
        let cp = (((b0 & 0x07) as u32) << 18) | (((b1 & 0x3f) as u32) << 12) | (((b2
            & 0x3f) as u32) << 6) | ((b3 & 0x3f) as u32);
        (0x10000 <= cp && cp <= 0x10ffff) <==> (if b0 == 0xF0 {
            b1 >= 0x90
        } else if b0 == 0xF4 {
            b1 <= 0x8F
        } else {
            b0 < 0xF4
        })
    }) by (bit_vector);
}

/// Bytes added one after the other, and none.
proof fn lemma_emit(c: Config, s: Scan, x: Seq<u8>, y: Seq<u8>)
    requires
        json_scan::bounded(c, s),
    ensures
        json_scan::emit(c, json_scan::emit(c, s, x), y) == json_scan::emit(
            c,
            s,
            x + y,
        ),
        json_scan::emit(c, s, Seq::empty()) == s,
        json_scan::bounded(c, json_scan::emit(c, s, x)),
{
    if let Some(k) = s.key {
        assert(k + x + y =~= k + (x + y));
        assert(k + Seq::<u8>::empty() =~= k);
    }
    if let Some(k) = s.text {
        assert(k + x + y =~= k + (x + y));
        assert(k + Seq::<u8>::empty() =~= k);
    }
    assert(s.bytes + x + y =~= s.bytes + (x + y));
    assert(s.bytes + Seq::<u8>::empty() =~= s.bytes);
}

/// A raw UTF-8 sequence of two bytes or more.
proof fn lemma_raw_sequence(c: Config, s: Scan, b: Seq<u8>, i: nat)
    requires
        in_text(c, s),
        i < b.len(),
        b[i as int] >= 0x80,
    ensures
        match char_at(b, i) {
            None => outcome(c, s, b, i) is None,
            Some((t, e)) => i < e <= b.len() && outcome(c, s, b, i) == outcome(
                c,
                json_scan::emit(c, s, t),
                b,
                e,
            ),
        },
{
    let rest = b.skip(i as int);
    assert(rest[0] == b[i as int]);
    lemma_utf8_ranges(rest);
    let b0 = b[i as int];
    lemma_step(c, s, b, i);
    if let Some((need, lo, hi)) = json_scan::utf8_lead(b0) {
        let s1 = json_scan::emit(c, Scan { need, lo, hi, ..s }, seq![b0]);
        assert(json_scan::step(c, s, b0) == Ok::<Scan, json_scan::Refusal>(s1));
        if i + 1 >= b.len() {
            lemma_cut_short(c, s1, b, i + 1);
        } else {
            let b1 = b[i as int + 1];
            assert(rest[1] == b1);
            lemma_step(c, s1, b, i + 1);
            if lo <= b1 <= hi {
                let s2 = json_scan::emit(
                    c,
                    Scan { need: (need - 1) as u8, lo: 0x80, hi: 0xBF, ..s1 },
                    seq![b1],
                );
                lemma_emit(c, s, seq![b0], seq![b1]);
                assert(s2 == Scan {
                    need: (need - 1) as u8,
                    ..json_scan::emit(c, s, seq![b0] + seq![b1])
                });
                if need == 1 {
                    assert(take_first_scalar(rest) =~= seq![b0] + seq![b1]);
                } else if i + 2 >= b.len() {
                    lemma_cut_short(c, s2, b, i + 2);
                } else {
                    let b2 = b[i as int + 2];
                    assert(rest[2] == b2);
                    lemma_step(c, s2, b, i + 2);
                    if 0x80 <= b2 <= 0xBF {
                        let s3 = json_scan::emit(
                            c,
                            Scan { need: (need - 2) as u8, ..s2 },
                            seq![b2],
                        );
                        lemma_emit(c, s, seq![b0] + seq![b1], seq![b2]);
                        let three = seq![b0] + seq![b1] + seq![b2];
                        assert(s3 == Scan {
                            need: (need - 2) as u8,
                            ..json_scan::emit(c, s, three)
                        });
                        if need == 2 {
                            assert(take_first_scalar(rest) =~= three);
                        } else if i + 3 >= b.len() {
                            lemma_cut_short(c, s3, b, i + 3);
                        } else {
                            let b3 = b[i as int + 3];
                            assert(rest[3] == b3);
                            lemma_step(c, s3, b, i + 3);
                            if 0x80 <= b3 <= 0xBF {
                                lemma_emit(c, s, three, seq![b3]);
                                assert(take_first_scalar(rest) =~= three + seq![b3]);
                            }
                        }
                    }
                }
            }
        }
    }
}

/// The byte that there is, if any.
spec fn listed(byte: Option<u8>) -> Seq<u8> {
    match byte {
        Some(b) => seq![b],
        None => Seq::empty(),
    }
}

/// The bytes that all but the last digit of a unit settle.
spec fn first_bytes(lead: Option<u16>, n: u16) -> Seq<u8> {
    listed(json_scan::due(lead, n / 4096, 1)) + listed(json_scan::due(lead, n / 256, 2)) + listed(
        json_scan::due(lead, n / 16, 3),
    )
}

/// The bytes that the digits of a unit settle.
spec fn unit_bytes(lead: Option<u16>, n: u16) -> Seq<u8> {
    first_bytes(lead, n) + listed(json_scan::due(lead, n, 4))
}

proof fn lemma_emit_due(c: Config, s: Scan, x: Seq<u8>, byte: Option<u8>)
    requires
        json_scan::bounded(c, s),
    ensures
        json_scan::emit_due(c, json_scan::emit(c, s, x), byte) == json_scan::emit(
            c,
            s,
            x + listed(byte),
        ),
{
    lemma_emit(c, s, x, listed(byte));
    assert(x + Seq::<u8>::empty() =~= x);
}

/// What the digits of an escape settle is the encoding of the character that it stands for.
proof fn lemma_unit_bytes(n: u16)
    requires
        !json_scan::is_high_surrogate(n),
        !json_scan::is_low_surrogate(n),
    ensures
        unit_bytes(None, n) == encode_scalar(n as u32),
{
    let m = n as u32;
    assert(n < 0x80 ==> (m & 0x7F) as u8 == n) by (bit_vector)
        requires
            m == n as u32,
    ;
    assert(0x80 <= n < 0x800 ==> 0xC0u8 | ((m >> 6) & 0x1F) as u8 == 0xC0 + n / 16 / 4)
        by (bit_vector)
        requires
            m == n as u32,
    ;
    assert(n >= 0x800 ==> 0xE0u8 | ((m >> 12) & 0x0F) as u8 == 0xE0 + n / 4096) by (bit_vector)
        requires
            m == n as u32,
    ;
    assert(0x80u8 | ((m >> 6) & 0x3F) as u8 == 0x80 + n / 16 / 4 % 64) by (bit_vector)
        requires
            m == n as u32,
    ;
    assert(0x80u8 | (m & 0x3F) as u8 == 0x80 + n % 64) by (bit_vector)
        requires
            m == n as u32,
    ;
    assert(unit_bytes(None, n) =~= encode_scalar(n as u32));
}

/// What the digits of a surrogate pair settle is the encoding of the character that it stands for.
proof fn lemma_pair_bytes(n: u16, l: u16)
    requires
        json_scan::is_high_surrogate(n),
        json_scan::is_low_surrogate(l),
    ensures
        unit_bytes(None, n) + unit_bytes(Some(n), l) == encode_scalar(json_scan::paired(n, l)),
{
    let m = json_scan::paired(n, l);
    assert(0xF0u8 | ((m >> 18) & 0x07) as u8 == 0xF0 + ((n / 16 - 0xD80) / 4 + 1) / 4 && 0x80u8 | ((
    m >> 12) & 0x3F) as u8 == 0x80 + ((n - 0xD800) / 64 + 1) % 4 * 16 + n / 4 % 16 && 0x80u8 | ((m
        >> 6) & 0x3F) as u8 == 0x80 + n % 4 * 16 + (l / 16 - 0xDC0) / 4 && 0x80u8 | (m & 0x3F) as u8
        == 0x80 + l % 64) by (bit_vector)
        requires
            0xD800 <= n <= 0xDBFF,
            0xDC00 <= l <= 0xDFFF,
            m == 0x1_0000 + (n - 0xD800) * 0x400 + (l - 0xDC00),
    ;
    assert(unit_bytes(None, n) + unit_bytes(Some(n), l) =~= encode_scalar(m));
}

/// `s` inside a unit of which `digits` are read, `x` having gone out.
spec fn in_unit(c: Config, s: Scan, x: Seq<u8>, n: u16, digits: u8, lead: Option<u16>) -> Scan {
    Scan { esc: Esc::Hex { n, digits, lead }, ..json_scan::emit(c, s, x) }
}

/// A hexadecimal digit that does not complete its unit: the number that the digits then make.
proof fn lemma_digit(
    c: Config,
    s: Scan,
    x: Seq<u8>,
    b: Seq<u8>,
    i: nat,
    n: u16,
    digits: u8,
    lead: Option<u16>,
) -> (m: u16)
    requires
        in_text(c, s),
        digits < 3,
    ensures
        i < b.len() && json_scan::hex_value(b[i as int]) is Some ==> {
            let k = (digits + 1) as u8;
            &&& m == (n * 16 + json_scan::hex_value(b[i as int])->0) as u16
            &&& outcome(c, in_unit(c, s, x, n, digits, lead), b, i) == outcome(
                c,
                in_unit(c, s, x + listed(json_scan::due(lead, m, k)), m, k, lead),
                b,
                i + 1,
            )
        },
        !(i < b.len() && json_scan::hex_value(b[i as int]) is Some) ==> outcome(
            c,
            in_unit(c, s, x, n, digits, lead),
            b,
            i,
        ) is None,
{
    let s0 = in_unit(c, s, x, n, digits, lead);
    if i >= b.len() {
        lemma_cut_short(c, s0, b, i);
        0
    } else {
        lemma_step(c, s0, b, i);
        match json_scan::hex_value(b[i as int]) {
            None => 0,
            Some(d) => {
                let m = (n * 16 + d) as u16;
                let k = (digits + 1) as u8;
                lemma_emit_due(c, s, x, json_scan::due(lead, m, k));
                m
            },
        }
    }
}

/// Four hexadecimal digits, read from just after `\u`, `x` having gone out of the same character.
proof fn lemma_unit(c: Config, s: Scan, x: Seq<u8>, b: Seq<u8>, i: nat, lead: Option<u16>)
    requires
        in_text(c, s),
    ensures
        match unit_at(b, i) {
            None => outcome(c, in_unit(c, s, x, 0, 0, lead), b, i) is None,
            Some(n) => {
                let done = json_scan::string(
                    c,
                    in_unit(c, s, x + first_bytes(lead, n), n / 16, 3, lead),
                    b[i as int + 3],
                );
                let from = outcome(c, in_unit(c, s, x, 0, 0, lead), b, i);
                &&& json_scan::hex_value(b[i as int + 3]) == Some((n % 16) as u16)
                &&& done is Err ==> from is None
                &&& done matches Ok(t) ==> from == outcome(c, t, b, i + 4)
            },
        },
{
    let n1 = lemma_digit(c, s, x, b, i, 0, 0, lead);
    if i < b.len() && json_scan::hex_value(b[i as int]) is Some {
        let x1 = x + listed(json_scan::due(lead, n1, 1));
        let n2 = lemma_digit(c, s, x1, b, i + 1, n1, 1, lead);
        if i + 1 < b.len() && json_scan::hex_value(b[i as int + 1]) is Some {
            let x2 = x1 + listed(json_scan::due(lead, n2, 2));
            let n3 = lemma_digit(c, s, x2, b, i + 2, n2, 2, lead);
            if i + 2 < b.len() && json_scan::hex_value(b[i as int + 2]) is Some {
                let x3 = x2 + listed(json_scan::due(lead, n3, 3));
                lemma_last_digit(c, s, x3, b, i + 3, n3, lead);
                if let Some(n) = unit_at(b, i) {
                    assert(n / 16 == n3 && n / 256 == n2 && n / 4096 == n1);
                    assert(x + first_bytes(lead, n) =~= x3);
                }
            }
        }
    }
}

/// The last digit of a unit.
proof fn lemma_last_digit(
    c: Config,
    s: Scan,
    x: Seq<u8>,
    b: Seq<u8>,
    i: nat,
    n: u16,
    lead: Option<u16>,
)
    requires
        in_text(c, s),
    ensures
        i >= b.len() ==> outcome(c, in_unit(c, s, x, n, 3, lead), b, i) is None,
        i < b.len() ==> match json_scan::string(c, in_unit(c, s, x, n, 3, lead), b[i as int]) {
            Err(_) => outcome(c, in_unit(c, s, x, n, 3, lead), b, i) is None,
            Ok(t) => outcome(c, in_unit(c, s, x, n, 3, lead), b, i) == outcome(c, t, b, i + 1),
        },
{
    let s0 = in_unit(c, s, x, n, 3, lead);
    if i >= b.len() {
        lemma_cut_short(c, s0, b, i);
    } else {
        lemma_step(c, s0, b, i);
    }
}

/// An escape, read from just after its backslash.
proof fn lemma_escape(c: Config, s: Scan, b: Seq<u8>, i: nat)
    requires
        in_text(c, s),
    ensures
        match escape_at(b, i) {
            None => outcome(c, Scan { esc: Esc::Backslash, ..s }, b, i) is None,
            Some((t, e)) => i < e <= b.len() && outcome(
                c,
                Scan { esc: Esc::Backslash, ..s },
                b,
                i,
            ) == outcome(c, json_scan::emit(c, s, t), b, e),
        },
{
    let s0 = Scan { esc: Esc::Backslash, ..s };
    let none = Seq::<u8>::empty();
    if i >= b.len() {
        lemma_cut_short(c, s0, b, i);
    } else {
        lemma_step(c, s0, b, i);
        if b[i as int] == 0x75 {
            lemma_emit(c, s, none, none);
            lemma_unit(c, s, none, b, i + 1, None);
            if let Some(n) = unit_at(b, i + 1) {
                assert((n / 16) * 16 + n % 16 == n);
                let one = unit_bytes(None, n);
                assert(none + first_bytes(None, n) =~= first_bytes(None, n));
                lemma_emit_due(c, s, first_bytes(None, n), json_scan::due(None, n, 4));
                if json_scan::is_high_surrogate(n) {
                    let s1 = json_scan::emit(c, s, one);
                    let s2 = Scan { esc: Esc::Low { high: n, backslash: false }, ..s1 };
                    assert(outcome(c, s0, b, i) == outcome(c, s2, b, i + 5));
                    if i + 5 >= b.len() {
                        lemma_cut_short(c, s2, b, i + 5);
                    } else {
                        lemma_step(c, s2, b, i + 5);
                        if b[i as int + 5] == 0x5C {
                            let s3 = Scan { esc: Esc::Low { high: n, backslash: true }, ..s1 };
                            if i + 6 >= b.len() {
                                lemma_cut_short(c, s3, b, i + 6);
                            } else {
                                lemma_step(c, s3, b, i + 6);
                                if b[i as int + 6] == 0x75 {
                                    lemma_unit(c, s, one, b, i + 7, Some(n));
                                    if let Some(m) = unit_at(b, i + 7) {
                                        assert((m / 16) * 16 + m % 16 == m);
                                        let most = one + first_bytes(Some(n), m);
                                        lemma_emit_due(
                                            c,
                                            s,
                                            most,
                                            json_scan::due(Some(n), m, 4),
                                        );
                                        if json_scan::is_low_surrogate(m) {
                                            lemma_pair_bytes(n, m);
                                            assert(most + listed(json_scan::due(Some(n), m, 4))
                                                =~= one + unit_bytes(Some(n), m));
                                        }
                                    }
                                }
                            }
                        }
                    }
                } else if !json_scan::is_low_surrogate(n) {
                    lemma_unit_bytes(n);
                }
            }
        }
    }
}

/// One character of a string.
proof fn lemma_char(c: Config, s: Scan, b: Seq<u8>, i: nat)
    requires
        in_text(c, s),
        i < b.len(),
        b[i as int] != 0x22,
    ensures
        match char_at(b, i) {
            None => outcome(c, s, b, i) is None,
            Some((t, e)) => i < e <= b.len() && outcome(c, s, b, i) == outcome(
                c,
                json_scan::emit(c, s, t),
                b,
                e,
            ),
        },
{
    if b[i as int] == 0x5C {
        lemma_step(c, s, b, i);
        lemma_escape(c, s, b, i + 1);
    } else if b[i as int] >= 0x80 {
        lemma_raw_sequence(c, s, b, i);
    } else {
        lemma_step(c, s, b, i);
        let rest = b.skip(i as int);
        assert(rest[0] == b[i as int]);
        let b0 = rest[0];
        assert(b0 < 0x80 ==> ((b0 & 0x7F) as u32) < 0xD800) by (bit_vector);
        if b0 >= 0x20 {
            assert(take_first_scalar(rest) =~= seq![b0]);
        }
    }
}

/// A string's content, up to its closing quote.
proof fn lemma_string(c: Config, s: Scan, b: Seq<u8>, i: nat)
    requires
        in_text(c, s),
    ensures
        match string_at(b, i) {
            None => outcome(c, s, b, i) is None,
            Some((t, e)) => {
                let full = json_scan::emit(c, s, t);
                &&& i < e <= b.len()
                &&& in_text(c, full)
                &&& match json_scan::end_string(c, full) {
                    Err(_) => outcome(c, s, b, i) is None,
                    Ok(u) => outcome(c, s, b, i) == outcome(c, u, b, e),
                }
            },
        },
    decreases b.len() - i,
{
    if i >= b.len() {
        lemma_cut_short(c, s, b, i);
    } else if b[i as int] == 0x22 {
        lemma_emit(c, s, Seq::empty(), Seq::empty());
        lemma_step(c, s, b, i);
    } else {
        lemma_char(c, s, b, i);
        if let Some((t, e)) = char_at(b, i) {
            let s1 = json_scan::emit(c, s, t);
            lemma_emit(c, s, t, Seq::empty());
            lemma_string(c, s1, b, e);
            if let Some((u, f)) = string_at(b, e) {
                lemma_emit(c, s, t, u);
                lemma_emit(c, s, t + u, Seq::empty());
            }
        }
    }
}

/// A string's content is valid UTF-8.
pub proof fn lemma_string_is_utf8(b: Seq<u8>, i: nat)
    ensures
        string_at(b, i) matches Some((t, _)) ==> valid_utf8(t),
    decreases b.len() - i,
{
    if i < b.len() && b[i as int] != 0x22 {
        if let Some((t, e)) = char_at(b, i) {
            if e > i {
                lemma_string_is_utf8(b, e);
                lemma_char_is_utf8(b, i);
                if let Some((u, _)) = string_at(b, e) {
                    valid_utf8_concat(t, u);
                }
            }
        }
    }
}

/// The encoding of a scalar value is valid UTF-8.
proof fn lemma_scalar_is_utf8(n: u32)
    requires
        is_scalar(n),
    ensures
        valid_utf8(encode_scalar(n)),
{
    let ch = n as char;
    assert(encode_utf8(seq![ch]) =~= encode_scalar(n)) by {
        assert(seq![ch].drop_first() =~= Seq::<char>::empty());
        assert(encode_utf8(Seq::<char>::empty()) =~= Seq::<u8>::empty());
        assert(encode_utf8(seq![ch]) == encode_scalar(ch as u32) + encode_utf8(
            seq![ch].drop_first(),
        ));
    }
    encode_utf8_valid_utf8(seq![ch]);
}

/// One ASCII byte is valid UTF-8.
proof fn lemma_ascii_is_utf8(x: u8)
    requires
        x < 0x80,
    ensures
        valid_utf8(seq![x]),
{
    assert(x < 0x80 ==> ((x & 0x7F) as u32) < 0xD800) by (bit_vector);
    assert(pop_first_scalar(seq![x]) =~= Seq::empty());
    assert(valid_utf8(pop_first_scalar(seq![x])));
}

proof fn lemma_char_is_utf8(b: Seq<u8>, i: nat)
    ensures
        char_at(b, i) matches Some((t, _)) ==> valid_utf8(t),
{
    if i < b.len() {
        if b[i as int] == 0x5C {
            let k = i + 1;
            if let Some((t, e)) = escape_at(b, k) {
                if b[k as int] == 0x75 {
                    let n = unit_at(b, k + 1)->0;
                    if json_scan::is_high_surrogate(n) {
                        let m = unit_at(b, k + 7)->0;
                        lemma_scalar_is_utf8(json_scan::paired(n, m));
                    } else {
                        lemma_scalar_is_utf8(n as u32);
                    }
                } else {
                    lemma_ascii_is_utf8(t[0]);
                    assert(t =~= seq![t[0]]);
                }
            }
        } else {
            let rest = b.skip(i as int);
            if valid_first_scalar(rest) {
                let t = take_first_scalar(rest);
                assert(t[0] == rest[0]);
                assert(t.len() > 1 ==> t[1] == rest[1]);
                assert(t.len() > 2 ==> t[2] == rest[2]);
                assert(t.len() > 3 ==> t[3] == rest[3]);
                assert(valid_first_scalar(t));
                assert(pop_first_scalar(t) =~= Seq::empty());
                assert(valid_utf8(pop_first_scalar(t)));
                assert(valid_utf8(t));
            }
        }
    }
}

/// A key as far as it is compared.
pub open spec fn held_key(key: Seq<u8>) -> Option<Seq<u8>> {
    if key.len() > KEY_CAP {
        None
    } else {
        Some(key)
    }
}

/// What is known once the member `t` turns out to hold `j`.
pub open spec fn noted(c: Config, f: Found, t: Target, j: Json) -> Found {
    match t {
        Target::Streamed => match j {
            Json::Text(x) => Found { streamed: Streamed::Text, restart: true, bytes: x, ..f },
            _ => Found { streamed: Streamed::NotString, ..f },
        },
        Target::Captured(i) => Found { captured: f.captured.update(i as int, captured_view(c, j)), ..f },
        Target::Other => f,
    }
}

/// A captured member's value, as reported.
pub open spec fn captured_view(c: Config, j: Json) -> MemberView {
    match j {
        Json::Text(x) => if x.len() > c.cap {
            MemberView::TooLong
        } else {
            MemberView::Text(decode_utf8(x))
        },
        _ => MemberView::NotString,
    }
}

/// What is known once the members `ms` of the top-level object are read, in order.
pub open spec fn members_found(c: Config, f: Found, ms: Seq<(Seq<u8>, Json)>) -> Found
    decreases ms.len(),
{
    if ms.len() == 0 {
        f
    } else {
        let t = json_scan::target_of(c, held_key(ms[0].0));
        members_found(c, noted(c, f, t, ms[0].1), ms.drop_first())
    }
}

/// What a reader in the state `s` knows.
pub open spec fn known(s: Scan) -> Found {
    Found { captured: s.captured, streamed: s.streamed, restart: s.restart, bytes: s.bytes }
}

/// What is known once a value `j` is read in the state `s`.
spec fn value_found(c: Config, s: Scan, j: Json) -> Found {
    if s.stack.len() == 0 {
        match j {
            Json::Object(ms) => members_found(c, known(s), ms),
            _ => known(s),
        }
    } else {
        noted(c, known(s), json_scan::value_target(s), j)
    }
}

/// A state between tokens.
spec fn between(c: Config, s: Scan) -> bool {
    &&& c.capture_keys.len() <= usize::MAX
    &&& json_scan::bounded(c, s)
    &&& s.lo == 0x80
    &&& s.hi == 0xBF
    &&& s.state != State::Str
    &&& s.state != State::Number
    &&& s.state != State::Literal
}

/// The state once a value is complete, with `stack` still open and `f` known.
spec fn completed(c: Config, t: Scan, stack: Seq<Container>, f: Found) -> bool {
    &&& between(c, t)
    &&& t.stack == stack
    &&& t.state == (if stack.len() == 0 {
        State::End
    } else {
        State::AfterValue
    })
    &&& known(t) == f
}

/// Whitespace between tokens changes nothing.
proof fn lemma_space(c: Config, s: Scan, b: Seq<u8>, i: nat)
    requires
        between(c, s),
    ensures
        outcome(c, s, b, i) == outcome(c, s, b, past_space(b, i)),
    decreases b.len() - i,
{
    if i < b.len() && json_scan::is_space(b[i as int]) {
        lemma_step(c, s, b, i);
        lemma_space(c, s, b, i + 1);
    }
}

/// A numeral, read from inside it.
proof fn lemma_numeral(c: Config, s: Scan, b: Seq<u8>, i: nat)
    requires
        json_scan::bounded(c, s),
        s.state == State::Number,
        i <= b.len(),
    ensures
        ({
            let e = numeral_end(b, i);
            let n = s.number + b.subrange(i as int, e as int);
            &&& i <= e <= b.len()
            &&& if n.len() <= MAX_NUMBER && json_scan::serde_json_accepts(n) {
                outcome(c, s, b, i) == outcome(
                    c,
                    json_scan::value_done(Scan { number: Seq::empty(), ..s }),
                    b,
                    e,
                )
            } else {
                outcome(c, s, b, i) is None
            }
        }),
    decreases b.len() - i,
{
    let e = numeral_end(b, i);
    if i < b.len() && json_scan::is_numeral_byte(b[i as int]) {
        lemma_step(c, s, b, i);
        let s1 = Scan { number: s.number.push(b[i as int]), ..s };
        if s.number.len() + 1 <= MAX_NUMBER {
            lemma_numeral(c, s1, b, i + 1);
            assert(s1.number + b.subrange(i as int + 1, e as int) =~= s.number + b.subrange(
                i as int,
                e as int,
            ));
        } else {
            lemma_numeral_end(b, i + 1);
        }
    } else {
        assert(s.number + b.subrange(i as int, e as int) =~= s.number);
        let t = json_scan::value_done(Scan { number: Seq::empty(), ..s });
        if i < b.len() {
            lemma_step(c, s, b, i);
            lemma_step(c, t, b, i);
        } else {
            reveal(outcome);
        }
    }
}

proof fn lemma_numeral_end(b: Seq<u8>, i: nat)
    requires
        i <= b.len(),
    ensures
        i <= numeral_end(b, i) <= b.len(),
    decreases b.len() - i,
{
    if i < b.len() && json_scan::is_numeral_byte(b[i as int]) {
        lemma_numeral_end(b, i + 1);
    }
}

/// The rest of `true`, `false` or `null`.
proof fn lemma_word(c: Config, s: Scan, b: Seq<u8>, i: nat)
    requires
        s.state == State::Literal,
        s.literal.len() > 0,
    ensures
        if stands_at(b, i, s.literal) {
            outcome(c, s, b, i) == outcome(
                c,
                json_scan::value_done(Scan { literal: Seq::empty(), ..s }),
                b,
                i + s.literal.len(),
            )
        } else {
            outcome(c, s, b, i) is None
        },
    decreases s.literal.len(),
{
    let w = s.literal;
    if i >= b.len() {
        lemma_cut_short(c, s, b, i);
    } else {
        lemma_step(c, s, b, i);
        if w[0] == b[i as int] {
            let s1 = Scan { literal: w.drop_first(), ..s };
            if s1.literal.len() == 0 {
                assert(s1.literal =~= Seq::empty());
                assert(b.subrange(i as int, i as int + 1) =~= w);
            } else {
                lemma_word(c, s1, b, i + 1);
                if stands_at(b, i + 1, s1.literal) {
                    let sub = b.subrange(i as int + 1, (i + 1 + s1.literal.len()) as int);
                    assert(b.subrange(i as int, (i + w.len()) as int) =~= seq![w[0]] + sub);
                    assert(w =~= seq![w[0]] + s1.literal);
                }
                if stands_at(b, i, w) {
                    assert(b.subrange(i as int + 1, (i + 1 + s1.literal.len()) as int) =~= b.subrange(
                        i as int,
                        (i + w.len()) as int,
                    ).drop_first());
                }
            }
        } else if stands_at(b, i, w) {
            assert(b.subrange(i as int, (i + w.len()) as int)[0] == b[i as int]);
        }
    }
}

/// A state in which the byte at `i` begins a value.
spec fn before_value(c: Config, s: Scan, b: Seq<u8>, i: nat) -> bool {
    &&& between(c, s)
    &&& i < b.len() ==> !json_scan::is_space(b[i as int])
    &&& s.state == State::Value || s.state == State::ArrayStart && (i < b.len() ==> b[i as int]
        != 0x5D)
}

/// A string value.
proof fn lemma_text_value(c: Config, s: Scan, b: Seq<u8>, i: nat) -> (t: Scan)
    requires
        before_value(c, s, b, i),
        i < b.len(),
        b[i as int] == 0x22,
    ensures
        match string_at(b, i + 1) {
            None => outcome(c, s, b, i) is None,
            Some((x, e)) => {
                &&& i < e <= b.len()
                &&& completed(c, t, s.stack, value_found(c, s, Json::Text(x)))
                &&& outcome(c, s, b, i) == outcome(c, t, b, e)
            },
        },
{
    lemma_step(c, s, b, i);
    let s1 = json_scan::begin_value(s, 0x22)->Ok_0;
    lemma_string(c, s1, b, i + 1);
    match string_at(b, i + 1) {
        None => s,
        Some((x, e)) => {
            lemma_string_is_utf8(b, i + 1);
            assert(Seq::<u8>::empty() + x =~= x);
            let full = json_scan::emit(c, s1, x);
            let t = json_scan::end_string(c, full)->Ok_0;
            assert(json_scan::end_string(c, full) is Ok);
            assert(known(t).captured =~= value_found(c, s, Json::Text(x)).captured);
            t
        },
    }
}

/// A word as a value.
proof fn lemma_word_value(c: Config, s: Scan, b: Seq<u8>, i: nat, w: Seq<u8>) -> (t: Scan)
    requires
        before_value(c, s, b, i),
        i < b.len(),
        word_of(b[i as int]) == Some(w),
    ensures
        if stands_at(b, i, w) {
            &&& completed(c, t, s.stack, value_found(c, s, Json::Word(w)))
            &&& outcome(c, s, b, i) == outcome(c, t, b, i + w.len())
        } else {
            outcome(c, s, b, i) is None
        },
{
    let x = b[i as int];
    lemma_step(c, s, b, i);
    let s1 = json_scan::begin_value(s, x)->Ok_0;
    lemma_word(c, s1, b, i + 1);
    assert(w =~= seq![x] + s1.literal);
    if stands_at(b, i + 1, s1.literal) {
        assert(b.subrange(i as int, (i + w.len()) as int) =~= seq![x] + b.subrange(
            i as int + 1,
            (i + 1 + s1.literal.len()) as int,
        ));
    }
    if stands_at(b, i, w) {
        assert(b.subrange(i as int + 1, (i + 1 + s1.literal.len()) as int) =~= b.subrange(
            i as int,
            (i + w.len()) as int,
        ).drop_first());
        assert(w.drop_first() =~= s1.literal);
    }
    json_scan::value_done(Scan { literal: Seq::empty(), ..s1 })
}

/// A numeral as a value.
proof fn lemma_numeral_value(c: Config, s: Scan, b: Seq<u8>, i: nat) -> (t: Scan)
    requires
        before_value(c, s, b, i),
        i < b.len(),
        b[i as int] == 0x2D || 0x30 <= b[i as int] <= 0x39,
    ensures
        ({
            let e = numeral_end(b, i);
            let n = b.subrange(i as int, e as int);
            &&& i < e <= b.len()
            &&& if n.len() <= MAX_NUMBER && json_scan::serde_json_accepts(n) {
                &&& completed(c, t, s.stack, value_found(c, s, Json::Numeral(n)))
                &&& outcome(c, s, b, i) == outcome(c, t, b, e)
            } else {
                outcome(c, s, b, i) is None
            }
        }),
{
    let x = b[i as int];
    lemma_step(c, s, b, i);
    let s1 = json_scan::begin_value(s, x)->Ok_0;
    lemma_numeral(c, s1, b, i + 1);
    let e = numeral_end(b, i + 1);
    assert(numeral_end(b, i) == e);
    assert(s1.number + b.subrange(i as int + 1, e as int) =~= b.subrange(i as int, e as int));
    json_scan::value_done(Scan { number: Seq::empty(), ..s1 })
}

/// A value, from its first byte on.
proof fn lemma_value(c: Config, s: Scan, b: Seq<u8>, i: nat) -> (t: Scan)
    requires
        before_value(c, s, b, i),
    ensures
        match value_at(b, i, s.stack.len()) {
            None => outcome(c, s, b, i) is None,
            Some((j, e)) => {
                &&& i < e <= b.len()
                &&& completed(c, t, s.stack, value_found(c, s, j))
                &&& outcome(c, s, b, i) == outcome(c, t, b, e)
            },
        },
    decreases b.len() - i, 1int,
{
    if i >= b.len() {
        lemma_cut_short(c, s, b, i);
        s
    } else if b[i as int] == 0x22 {
        lemma_text_value(c, s, b, i)
    } else if b[i as int] == 0x7B || b[i as int] == 0x5B {
        lemma_container(c, s, b, i)
    } else if let Some(w) = word_of(b[i as int]) {
        lemma_word_value(c, s, b, i, w)
    } else if b[i as int] == 0x2D || 0x30 <= b[i as int] <= 0x39 {
        lemma_numeral_value(c, s, b, i)
    } else {
        lemma_step(c, s, b, i);
        s
    }
}

/// An array or an object, from its opening bracket on.
proof fn lemma_container(c: Config, s: Scan, b: Seq<u8>, i: nat) -> (t: Scan)
    requires
        before_value(c, s, b, i),
        i < b.len(),
        b[i as int] == 0x7B || b[i as int] == 0x5B,
    ensures
        match value_at(b, i, s.stack.len()) {
            None => outcome(c, s, b, i) is None,
            Some((j, e)) => {
                &&& i < e <= b.len()
                &&& completed(c, t, s.stack, value_found(c, s, j))
                &&& outcome(c, s, b, i) == outcome(c, t, b, e)
            },
        },
    decreases b.len() - i, 0int,
{
    let x = b[i as int];
    lemma_step(c, s, b, i);
    if s.stack.len() >= MAX_DEPTH {
        return s;
    }
    let s1 = json_scan::begin_value(s, x)->Ok_0;
    assert(known(s1) == noted(c, known(s), json_scan::value_target(s), Json::Array(Seq::empty())));
    lemma_past_space(b, i + 1);
    let k = past_space(b, i + 1);
    lemma_space(c, s1, b, i + 1);
    assert(outcome(c, s, b, i) == outcome(c, s1, b, k));
    assert(s1.stack.drop_last() =~= s.stack);
    if k >= b.len() {
        lemma_cut_short(c, s1, b, k);
        s
    } else if x == 0x7B && b[k as int] == 0x7D {
        lemma_step(c, s1, b, k);
        json_scan::close(s1)
    } else if x == 0x7B {
        lemma_members(c, s1, b, k, true)
    } else if b[k as int] == 0x5D {
        lemma_step(c, s1, b, k);
        json_scan::close(s1)
    } else {
        lemma_elements(c, s1, b, k)
    }
}

/// The elements of an array, from the one at `k` on.
proof fn lemma_elements(c: Config, s: Scan, b: Seq<u8>, k: nat) -> (t: Scan)
    requires
        before_value(c, s, b, k),
        s.stack.len() > 0,
        s.stack.last() == Container::Array,
    ensures
        match elements_at(b, k, s.stack.len()) {
            None => outcome(c, s, b, k) is None,
            Some((vs, e)) => {
                &&& k < e <= b.len()
                &&& completed(c, t, s.stack.drop_last(), known(s))
                &&& outcome(c, s, b, k) == outcome(c, t, b, e)
            },
        },
    decreases b.len() - k, 2int,
{
    let u = lemma_value(c, s, b, k);
    match value_at(b, k, s.stack.len()) {
        None => s,
        Some((j, e)) => {
            lemma_space(c, u, b, e);
            lemma_past_space(b, e);
            let f = past_space(b, e);
            if f >= b.len() {
                lemma_cut_short(c, u, b, f);
                s
            } else {
                lemma_step(c, u, b, f);
                if b[f as int] == 0x5D {
                    json_scan::close(u)
                } else if b[f as int] == 0x2C {
                    let v = Scan { state: State::Value, ..u };
                    lemma_space(c, v, b, f + 1);
                    lemma_past_space(b, f + 1);
                    let n = past_space(b, f + 1);
                    if n >= b.len() {
                        lemma_cut_short(c, v, b, n);
                        s
                    } else {
                        lemma_elements(c, v, b, n)
                    }
                } else {
                    s
                }
            }
        },
    }
}

/// What is known once the members `ms` of the object innermost in `s` are read.
spec fn object_found(c: Config, s: Scan, ms: Seq<(Seq<u8>, Json)>) -> Found {
    if s.stack.len() == 1 {
        members_found(c, known(s), ms)
    } else {
        known(s)
    }
}

/// A key and the colon after it.
proof fn lemma_key(c: Config, s: Scan, b: Seq<u8>, k: nat, first: bool) -> (t: Scan)
    requires
        between(c, s),
        s.stack.len() > 0,
        s.stack.last() == Container::Object,
        s.state == (if first {
            State::ObjectStart
        } else {
            State::Key
        }),
        k < b.len(),
        !json_scan::is_space(b[k as int]),
        first ==> b[k as int] != 0x7D,
    ensures
        match string_at(b, k + 1) {
            None => b[k as int] == 0x22 ==> outcome(c, s, b, k) is None,
            Some((key, d)) => {
                let colon = past_space(b, d);
                let v = past_space(b, colon + 1);
                if b[k as int] == 0x22 && !(first && key == encode_utf8(RAW_VALUE_TOKEN@)) && v
                    < b.len() && b[colon as int] == 0x3A {
                    &&& k < d <= colon < v
                    &&& before_value(c, t, b, v)
                    &&& t.state == State::Value
                    &&& t.stack == s.stack
                    &&& known(t) == known(s)
                    &&& s.stack.len() == 1 ==> t.member == json_scan::target_of(c, held_key(key))
                    &&& outcome(c, s, b, k) == outcome(c, t, b, v)
                } else {
                    outcome(c, s, b, k) is None
                }
            },
        },
        b[k as int] != 0x22 ==> outcome(c, s, b, k) is None,
{
    lemma_step(c, s, b, k);
    if b[k as int] != 0x22 {
        return s;
    }
    let s1 = json_scan::structural(s, 0x22)->Ok_0;
    lemma_string(c, s1, b, k + 1);
    match string_at(b, k + 1) {
        None => s,
        Some((key, d)) => {
            assert(Seq::<u8>::empty() + key =~= key);
            let full = json_scan::emit(c, s1, key);
            assert(full.key == held_key(key));
            lemma_token_is_short();
            match json_scan::end_string(c, full) {
                Err(_) => s,
                Ok(u) => {
                    assert(!(first && key == encode_utf8(RAW_VALUE_TOKEN@)));
                    if let Some(held) = full.key {
                        if c.capture_keys.contains(held) {
                            c.capture_keys.index_of_first_ensures(held);
                        }
                    }
                    lemma_space(c, u, b, d);
                    lemma_past_space(b, d);
                    let colon = past_space(b, d);
                    if colon >= b.len() {
                        lemma_cut_short(c, u, b, colon);
                        lemma_past_space(b, colon + 1);
                        s
                    } else {
                        lemma_step(c, u, b, colon);
                        if b[colon as int] == 0x3A {
                            let w = Scan { state: State::Value, ..u };
                            lemma_space(c, w, b, colon + 1);
                            lemma_past_space(b, colon + 1);
                            let v = past_space(b, colon + 1);
                            if v >= b.len() {
                                lemma_cut_short(c, w, b, v);
                            }
                            w
                        } else {
                            s
                        }
                    }
                },
            }
        },
    }
}

/// serde_json's mark is no longer than a key that is compared.
proof fn lemma_token_is_short()
    ensures
        encode_utf8(RAW_VALUE_TOKEN@).len() <= KEY_CAP,
{
    reveal_strlit("$serde_json::private::RawValue");
    is_ascii_chars_encode_utf8(RAW_VALUE_TOKEN@);
}

/// The members of an object, from the key at `k` on.
proof fn lemma_members(c: Config, s: Scan, b: Seq<u8>, k: nat, first: bool) -> (t: Scan)
    requires
        between(c, s),
        s.stack.len() > 0,
        s.stack.last() == Container::Object,
        s.state == (if first {
            State::ObjectStart
        } else {
            State::Key
        }),
        k < b.len(),
        !json_scan::is_space(b[k as int]),
        first ==> b[k as int] != 0x7D,
    ensures
        match members_at(b, k, s.stack.len(), first) {
            None => outcome(c, s, b, k) is None,
            Some((ms, e)) => {
                &&& k < e <= b.len()
                &&& completed(c, t, s.stack.drop_last(), object_found(c, s, ms))
                &&& outcome(c, s, b, k) == outcome(c, t, b, e)
            },
        },
    decreases b.len() - k, 2int,
{
    let w = lemma_key(c, s, b, k, first);
    if b[k as int] != 0x22 {
        return s;
    }
    match string_at(b, k + 1) {
        None => s,
        Some((key, d)) => {
            let colon = past_space(b, d);
            let v = past_space(b, colon + 1);
            if first && key == encode_utf8(RAW_VALUE_TOKEN@) || v >= b.len() || b[colon as int]
                != 0x3A {
                return s;
            }
            let u = lemma_value(c, w, b, v);
            match value_at(b, v, s.stack.len()) {
                None => s,
                Some((j, e)) => {
                    lemma_space(c, u, b, e);
                    lemma_past_space(b, e);
                    let f = past_space(b, e);
                    let one = seq![(key, j)];
                    assert(one.drop_first() =~= Seq::empty());
                    assert(members_found(
                        c,
                        noted(c, known(s), json_scan::target_of(c, held_key(key)), j),
                        Seq::empty(),
                    ) == noted(c, known(s), json_scan::target_of(c, held_key(key)), j));
                    assert(known(u) == object_found(c, s, one));
                    if f >= b.len() {
                        lemma_cut_short(c, u, b, f);
                        s
                    } else {
                        lemma_step(c, u, b, f);
                        if b[f as int] == 0x7D {
                            json_scan::close(u)
                        } else if b[f as int] == 0x2C {
                            let x = Scan { state: State::Key, ..u };
                            lemma_space(c, x, b, f + 1);
                            lemma_past_space(b, f + 1);
                            let n = past_space(b, f + 1);
                            if n >= b.len() {
                                lemma_cut_short(c, x, b, n);
                                s
                            } else {
                                let t = lemma_members(c, x, b, n, false);
                                if let Some((rest, g)) = members_at(b, n, s.stack.len(), false) {
                                    assert((one + rest).drop_first() =~= rest);
                                    assert(object_found(c, x, rest) == object_found(
                                        c,
                                        s,
                                        one + rest,
                                    ));
                                }
                                t
                            }
                        } else {
                            s
                        }
                    }
                },
            }
        },
    }
}

/// What a reader makes of a document fed to it whole.
pub open spec fn reading(c: Config, b: Seq<u8>) -> Option<Found> {
    match json_scan::run(c, json_scan::start(c), b) {
        Err(_) => None,
        Ok(t) => match json_scan::finished(t, b.len()) {
            Err(_) => None,
            Ok((captured, streamed)) => Some(
                Found { captured, streamed, restart: t.restart, bytes: t.bytes },
            ),
        },
    }
}

/// What is to be reported of a document that holds `j`: the members of a top-level object, in
/// order, each occurrence of a key overriding what came before.
pub open spec fn reported(c: Config, j: Json) -> Found {
    match j {
        Json::Object(ms) => members_found(c, known(json_scan::start(c)), ms),
        _ => known(json_scan::start(c)),
    }
}

/// A document is accepted exactly when it is a JSON text, and then what is reported of it is
/// what its value holds.
pub proof fn law_accepts_exactly_json(c: Config, b: Seq<u8>)
    requires
        c.capture_keys.len() <= usize::MAX,
    ensures
        reading(c, b) == (match document(b) {
            Some(j) => Some(reported(c, j)),
            None => None,
        }),
{
    let s = json_scan::start(c);
    lemma_land_is_run(c, s, b, 0, 0);
    assert(reading(c, b) == outcome(c, s, b, 0)) by {
        reveal(outcome);
    }
    lemma_space(c, s, b, 0);
    lemma_past_space(b, 0);
    let i = past_space(b, 0);
    let t = lemma_value(c, s, b, i);
    if let Some((j, e)) = value_at(b, i, 0) {
        lemma_space(c, t, b, e);
        lemma_past_space(b, e);
        let f = past_space(b, e);
        if f < b.len() {
            lemma_step(c, t, b, f);
        } else {
            reveal(outcome);
        }
    }
}

/// The last value that `ms` gives for `key`.
pub open spec fn last_of(ms: Seq<(Seq<u8>, Json)>, key: Seq<u8>) -> Option<Json>
    decreases ms.len(),
{
    if ms.len() == 0 {
        None
    } else if ms.last().0 == key {
        Some(ms.last().1)
    } else {
        last_of(ms.drop_last(), key)
    }
}

/// Reading one member more.
proof fn lemma_one_member_more(c: Config, f: Found, ms: Seq<(Seq<u8>, Json)>)
    requires
        ms.len() > 0,
    ensures
        members_found(c, f, ms) == noted(
            c,
            members_found(c, f, ms.drop_last()),
            json_scan::target_of(c, held_key(ms.last().0)),
            ms.last().1,
        ),
    decreases ms.len(),
{
    let g = noted(c, f, json_scan::target_of(c, held_key(ms[0].0)), ms[0].1);
    if ms.len() == 1 {
        assert(ms.drop_first() =~= Seq::empty());
        assert(ms.drop_last() =~= Seq::empty());
        assert(members_found(c, g, Seq::empty()) == g);
    } else {
        lemma_one_member_more(c, g, ms.drop_first());
        assert(ms.drop_first().drop_last() =~= ms.drop_last().drop_first());
        assert(ms.drop_last()[0] == ms[0]);
        assert(ms.drop_first().last() == ms.last());
    }
}

/// The keys asked for are told apart: no two are equal, and all are short enough to be compared.
pub open spec fn distinct_keys(c: Config) -> bool {
    &&& c.streamed_key.len() <= KEY_CAP
    &&& c.capture_keys.len() <= usize::MAX
    &&& forall|i: int|
        0 <= i < c.capture_keys.len() ==> (#[trigger] c.capture_keys[i]).len() <= KEY_CAP
            && c.capture_keys[i] != c.streamed_key
    &&& forall|i: int, j: int|
        0 <= i < j < c.capture_keys.len() ==> c.capture_keys[i] != c.capture_keys[j]
}

/// Of each captured key the last occurrence is reported, and of the streamed key too: whether it
/// was a string, and then that string.
pub proof fn law_last_occurrence_wins(c: Config, ms: Seq<(Seq<u8>, Json)>)
    requires
        distinct_keys(c),
    ensures
        ({
            let f = reported(c, Json::Object(ms));
            &&& f.captured.len() == c.capture_keys.len()
            &&& forall|i: int|
                0 <= i < c.capture_keys.len() ==> #[trigger] f.captured[i] == (match last_of(
                    ms,
                    c.capture_keys[i],
                ) {
                    None => MemberView::Absent,
                    Some(j) => captured_view(c, j),
                })
            &&& match last_of(ms, c.streamed_key) {
                None => f.streamed == Streamed::Absent,
                Some(Json::Text(x)) => f.streamed == Streamed::Text && f.restart && f.bytes == x,
                Some(_) => f.streamed == Streamed::NotString,
            }
        }),
    decreases ms.len(),
{
    if ms.len() > 0 {
        let rest = ms.drop_last();
        law_last_occurrence_wins(c, rest);
        let f0 = known(json_scan::start(c));
        lemma_one_member_more(c, f0, ms);
        let key = ms.last().0;
        let g = members_found(c, f0, rest);
        let f = members_found(c, f0, ms);
        let t = json_scan::target_of(c, held_key(key));
        if c.capture_keys.contains(key) {
            c.capture_keys.index_of_first_ensures(key);
        }
        assert forall|i: int| 0 <= i < c.capture_keys.len() implies #[trigger] f.captured[i] == (
        match last_of(ms, c.capture_keys[i]) {
            None => MemberView::Absent,
            Some(j) => captured_view(c, j),
        }) by {
            assert(g.captured[i] == (match last_of(rest, c.capture_keys[i]) {
                None => MemberView::Absent,
                Some(j) => captured_view(c, j),
            }));
            if c.capture_keys[i] == key {
                assert(t == Target::Captured(i as usize));
            }
        }
    }
}

/// `t` with its output appended to what had gone out before.
pub open spec fn after_output(t: Scan, restart: bool, bytes: Seq<u8>) -> Scan {
    Scan {
        restart: restart || t.restart,
        bytes: if t.restart {
            t.bytes
        } else {
            bytes + t.bytes
        },
        ..t
    }
}

/// What had gone out before changes nothing in what a reader does.
proof fn lemma_output_is_apart(c: Config, s: Scan, b: Seq<u8>, i: nat, r: bool, x: Seq<u8>)
    ensures
        land(c, after_output(s, r, x), b, i) == (match land(c, s, b, i) {
            None => None,
            Some(t) => Some(after_output(t, r, x)),
        }),
    decreases b.len() - i,
{
    if i < b.len() {
        lemma_output_step(c, s, b[i as int], r, x);
        if let Ok(t) = json_scan::step(c, s, b[i as int]) {
            lemma_output_is_apart(c, t, b, i + 1, r, x);
        }
    }
}

/// The results of one transition on two states that differ in earlier output.
spec fn differ_in_output(
    p: Result<Scan, json_scan::Fail>,
    q: Result<Scan, json_scan::Fail>,
    r: bool,
    x: Seq<u8>,
) -> bool {
    match (p, q) {
        (Ok(t), Ok(u)) => u == after_output(t, r, x),
        (Err(_), Err(_)) => true,
        _ => false,
    }
}

proof fn lemma_output_emit(c: Config, s: Scan, y: Seq<u8>, r: bool, x: Seq<u8>)
    ensures
        json_scan::emit(c, after_output(s, r, x), y) == after_output(
            json_scan::emit(c, s, y),
            r,
            x,
        ),
{
    assert(x + (s.bytes + y) =~= x + s.bytes + y);
}

proof fn lemma_output_string(c: Config, s: Scan, b: u8, r: bool, x: Seq<u8>)
    ensures
        differ_in_output(
            json_scan::string(c, s, b),
            json_scan::string(c, after_output(s, r, x), b),
            r,
            x,
        ),
{
    match s.esc {
        Esc::Plain => {
            lemma_output_emit(
                c,
                Scan { need: (s.need - 1) as u8, lo: 0x80, hi: 0xBF, ..s },
                seq![b],
                r,
                x,
            );
            lemma_output_emit(c, s, seq![b], r, x);
            if let Some((need, lo, hi)) = json_scan::utf8_lead(b) {
                lemma_output_emit(c, Scan { need, lo, hi, ..s }, seq![b], r, x);
            }
        },
        Esc::Backslash => {
            if let Some(e) = json_scan::escaped(b) {
                lemma_output_emit(c, Scan { esc: Esc::Plain, ..s }, seq![e], r, x);
            }
        },
        Esc::Hex { n, digits, lead } => {
            if let Some(d) = json_scan::hex_value(b) {
                let n = (n * 16 + d) as u16;
                let k = (digits + 1) as u8;
                if let Some(y) = json_scan::due(lead, n, k) {
                    let hex = Esc::Hex { n, digits: k, lead };
                    let low = Esc::Low { high: n, backslash: false };
                    lemma_output_emit(c, Scan { esc: hex, ..s }, seq![y], r, x);
                    lemma_output_emit(c, Scan { esc: low, ..s }, seq![y], r, x);
                    lemma_output_emit(c, Scan { esc: Esc::Plain, ..s }, seq![y], r, x);
                }
            }
        },
        Esc::Low { .. } => {},
    }
}

proof fn lemma_output_structural(s: Scan, b: u8, r: bool, x: Seq<u8>)
    ensures
        differ_in_output(
            json_scan::structural(s, b),
            json_scan::structural(after_output(s, r, x), b),
            r,
            x,
        ),
{
    let t = json_scan::value_target(s);
    assert(json_scan::note_not_string(after_output(s, r, x), t) == after_output(
        json_scan::note_not_string(s, t),
        r,
        x,
    ));
    assert(differ_in_output(
        json_scan::begin_value(s, b),
        json_scan::begin_value(after_output(s, r, x), b),
        r,
        x,
    ));
}

proof fn lemma_output_step(c: Config, s: Scan, b: u8, r: bool, x: Seq<u8>)
    ensures
        match (json_scan::step(c, s, b), json_scan::step(c, after_output(s, r, x), b)) {
            (Ok(t), Ok(u)) => u == after_output(t, r, x),
            (Err(_), Err(_)) => true,
            _ => false,
        },
{
    lemma_output_string(c, s, b, r, x);
    lemma_output_structural(s, b, r, x);
    if let Ok(t) = json_scan::end_number(s) {
        lemma_output_structural(t, b, r, x);
    }
}

/// A chunk read after another is the two read at once.
proof fn lemma_land_concat(c: Config, s: Scan, a: Seq<u8>, b: Seq<u8>, i: nat)
    requires
        i <= a.len(),
    ensures
        land(c, s, a + b, i) == (match land(c, s, a, i) {
            None => None,
            Some(t) => land(c, t, b, 0),
        }),
    decreases a.len() - i,
{
    if i < a.len() {
        assert((a + b)[i as int] == a[i as int]);
        if let Ok(t) = json_scan::step(c, s, a[i as int]) {
            lemma_land_concat(c, t, a, b, i + 1);
        }
    } else {
        lemma_land_shift(c, s, a, b, 0);
    }
}

proof fn lemma_land_shift(c: Config, s: Scan, a: Seq<u8>, b: Seq<u8>, j: nat)
    ensures
        land(c, s, a + b, a.len() + j) == land(c, s, b, j),
    decreases b.len() - j,
{
    if j < b.len() {
        assert((a + b)[a.len() + j as int] == b[j as int]);
        if let Ok(t) = json_scan::step(c, s, b[j as int]) {
            lemma_land_shift(c, t, a, b, j + 1);
        }
    }
}

/// All the chunks, one after the other.
pub open spec fn joined(chunks: Seq<Seq<u8>>) -> Seq<u8>
    decreases chunks.len(),
{
    if chunks.len() == 0 {
        Seq::empty()
    } else {
        joined(chunks.drop_last()) + chunks.last()
    }
}

/// A reader fed `chunks` by a caller that takes the output after each: the state it ends in, and
/// what the caller then holds of the streamed member.
pub open spec fn fed(c: Config, chunks: Seq<Seq<u8>>) -> Option<(Scan, Seq<u8>)>
    decreases chunks.len(),
{
    if chunks.len() == 0 {
        Some((json_scan::start(c), Seq::empty()))
    } else {
        match fed(c, chunks.drop_last()) {
            None => None,
            Some((s, kept)) => match json_scan::run(
                c,
                Scan { restart: false, bytes: Seq::empty(), ..s },
                chunks.last(),
            ) {
                Err(_) => None,
                Ok(t) => Some(
                    (
                        t,
                        if t.restart {
                            t.bytes
                        } else {
                            kept + t.bytes
                        },
                    ),
                ),
            },
        }
    }
}

/// What a reader fed in pieces makes of the document.
pub open spec fn reading_in_chunks(c: Config, chunks: Seq<Seq<u8>>) -> Option<
    (Seq<MemberView>, Streamed, Seq<u8>),
> {
    match fed(c, chunks) {
        None => None,
        Some((s, kept)) => match json_scan::finished(s, joined(chunks).len()) {
            Err(_) => None,
            Ok((captured, streamed)) => Some((captured, streamed, kept)),
        },
    }
}

proof fn lemma_fed(c: Config, chunks: Seq<Seq<u8>>)
    ensures
        match (fed(c, chunks), land(c, json_scan::start(c), joined(chunks), 0)) {
            (None, None) => true,
            (Some((s, kept)), Some(t)) => kept == t.bytes && Scan {
                restart: t.restart,
                bytes: t.bytes,
                ..s
            } == t,
            _ => false,
        },
    decreases chunks.len(),
{
    if chunks.len() > 0 {
        let before = chunks.drop_last();
        let last = chunks.last();
        lemma_fed(c, before);
        lemma_land_concat(c, json_scan::start(c), joined(before), last, 0);
        if let Some((s, kept)) = fed(c, before) {
            let t = land(c, json_scan::start(c), joined(before), 0)->0;
            let s0 = Scan { restart: false, bytes: Seq::empty(), ..s };
            lemma_land_is_run(c, s0, last, 0, 0);
            assert(kept + Seq::<u8>::empty() =~= kept);
            assert(after_output(s0, t.restart, t.bytes) == t);
            lemma_output_is_apart(c, s0, last, 0, t.restart, t.bytes);
        }
    }
}

/// However a document is cut into chunks, the reader accepts or refuses it alike, reports the
/// same members, and hands out the same bytes.
pub proof fn law_chunks_do_not_matter(c: Config, chunks: Seq<Seq<u8>>)
    ensures
        reading_in_chunks(c, chunks) == (match reading(c, joined(chunks)) {
            None => None,
            Some(f) => Some((f.captured, f.streamed, f.bytes)),
        }),
{
    lemma_fed(c, chunks);
    lemma_land_is_run(c, json_scan::start(c), joined(chunks), 0, 0);
}

/// The calls that read one document: a new reader is fed the chunks in order, each time with an
/// output that its caller has emptied, up to the first error; if there is none, it is finished.
pub struct Feeding {
    pub chunks: Seq<Seq<u8>>,
    /// The reader before each [`JsonScanner::feed`], and after the last.
    pub readers: Seq<JsonScanner>,
    /// What each [`JsonScanner::feed`] put out.
    pub outs: Seq<(bool, Seq<u8>)>,
    pub results: Seq<Result<(), ScanError>>,
    /// What [`JsonScanner::finish`] gave.
    pub end: Option<Result<Scanned, ScanError>>,
}

/// What a caller keeps of a streamed member that came in pieces.
pub open spec fn kept(outs: Seq<(bool, Seq<u8>)>) -> Seq<u8>
    decreases outs.len(),
{
    if outs.len() == 0 {
        Seq::empty()
    } else if outs.last().0 {
        outs.last().1
    } else {
        kept(outs.drop_last()) + outs.last().1
    }
}

impl Feeding {
    /// What the reader was asked for.
    pub open spec fn config(self) -> Config {
        self.readers[0].config()
    }

    /// Whether the calls went so.
    pub open spec fn took_place(self) -> bool {
        let n = self.results.len();
        &&& n <= self.chunks.len()
        &&& self.readers.len() == n + 1
        &&& self.outs.len() == n
        &&& self.readers[0].reader() == json_scan::start(self.config())
        &&& self.readers[0].consumed() == 0
        &&& forall|i: int|
            0 <= i < n ==> json_scan::feeds(
                self.readers[i],
                (false, Seq::empty()),
                self.chunks[i],
                self.readers[i + 1],
                self.outs[i],
                #[trigger] self.results[i],
            )
        &&& forall|i: int| 0 <= i < n - 1 ==> (#[trigger] self.results[i]) is Ok
        &&& if n > 0 && self.results.last() is Err {
            self.end is None
        } else {
            n == self.chunks.len() && (self.end matches Some(r) && json_scan::finishes(
                self.readers.last(),
                r,
            ))
        }
    }

    /// What came of it: the members and the bytes kept, or nothing where a call failed.
    pub open spec fn outcome(self) -> Option<(Seq<MemberView>, Streamed, Seq<u8>)> {
        match self.end {
            Some(Ok(found)) => Some(
                (json_scan::member_views(found.captured@), found.streamed, kept(self.outs)),
            ),
            _ => None,
        }
    }
}

/// Where a reader stands after some calls that went well.
proof fn lemma_fed_so_far(f: Feeding, i: nat)
    requires
        f.took_place(),
        i <= f.results.len(),
        forall|j: int| 0 <= j < i ==> (#[trigger] f.results[j]) is Ok,
    ensures
        f.readers[i as int].config() == f.config(),
        f.readers[i as int].consumed() == joined(f.chunks.take(i as int)).len(),
        fed(f.config(), f.chunks.take(i as int)) matches Some((s, k)) && k == kept(
            f.outs.take(i as int),
        ) && f.readers[i as int].reader() == json_scan::with_output(s, false, Seq::empty()),
    decreases i,
{
    if i > 0 {
        let h = (i - 1) as nat;
        lemma_fed_so_far(f, h);
        assert(f.chunks.take(i as int).drop_last() =~= f.chunks.take(h as int));
        assert(f.outs.take(i as int).drop_last() =~= f.outs.take(h as int));
        assert(f.results[h as int] is Ok);
    } else {
        assert(f.chunks.take(0) =~= Seq::empty());
        assert(f.outs.take(0) =~= Seq::empty());
    }
}

/// A document that is refused stays refused, whatever follows.
proof fn lemma_stays_refused(c: Config, chunks: Seq<Seq<u8>>, n: nat)
    requires
        n <= chunks.len(),
        fed(c, chunks.take(n as int)) is None,
    ensures
        fed(c, chunks) is None,
    decreases chunks.len(),
{
    if n == chunks.len() {
        assert(chunks.take(n as int) =~= chunks);
    } else {
        assert(chunks.drop_last().take(n as int) =~= chunks.take(n as int));
        lemma_stays_refused(c, chunks.drop_last(), n);
    }
}

/// Feeding a document chunk by chunk comes to what [`reading`] makes of it whole.
pub proof fn law_feeding_reads_the_document(f: Feeding)
    requires
        f.took_place(),
    ensures
        f.outcome() == (match reading(f.config(), joined(f.chunks)) {
            None => None,
            Some(found) => Some((found.captured, found.streamed, found.bytes)),
        }),
{
    let c = f.config();
    let n = f.results.len();
    law_chunks_do_not_matter(c, f.chunks);
    if n > 0 && f.results.last() is Err {
        let h = (n - 1) as nat;
        lemma_fed_so_far(f, h);
        assert(f.chunks.take(n as int).drop_last() =~= f.chunks.take(h as int));
        assert(json_scan::feeds(
            f.readers[h as int],
            (false, Seq::empty()),
            f.chunks[h as int],
            f.readers[h as int + 1],
            f.outs[h as int],
            f.results[h as int],
        ));
        assert(fed(c, f.chunks.take(n as int)) is None);
        lemma_stays_refused(c, f.chunks, n);
    } else {
        lemma_fed_so_far(f, n);
        assert(f.chunks.take(n as int) =~= f.chunks);
        assert(f.outs.take(n as int) =~= f.outs);
    }
}

/// However a document is cut, inside an escape, a character, a numeral or a key, feeding it to a
/// reader has one outcome: it is accepted or refused alike, with the same members and the same
/// bytes of the streamed one.
pub proof fn law_cuts_do_not_matter(f: Feeding, g: Feeding)
    requires
        f.took_place(),
        g.took_place(),
        f.config() == g.config(),
        joined(f.chunks) == joined(g.chunks),
    ensures
        f.outcome() == g.outcome(),
{
    law_feeding_reads_the_document(f);
    law_feeding_reads_the_document(g);
}

/// What an output held before stays in front of what a chunk adds to it; where a streamed member
/// began in the chunk, only the bytes of its last occurrence are left, and the output says so.
pub proof fn law_output_is_appended(c: Config, s: Scan, input: Seq<u8>, held: (bool, Seq<u8>))
    ensures
        ({
            let empty = json_scan::with_output(s, false, Seq::empty());
            match (
                json_scan::run(c, empty, input),
                json_scan::run(c, json_scan::with_output(s, held.0, held.1), input),
            ) {
                (Ok(t), Ok(u)) => u == (if t.restart {
                    t
                } else {
                    json_scan::with_output(t, held.0, held.1 + t.bytes)
                }),
                (Err(_), Err(_)) => true,
                _ => false,
            }
        }),
{
    let empty = json_scan::with_output(s, false, Seq::empty());
    let other = json_scan::with_output(s, held.0, held.1);
    assert(held.1 + Seq::<u8>::empty() =~= held.1);
    assert(after_output(empty, held.0, held.1) == other);
    lemma_land_is_run(c, empty, input, 0, 0);
    lemma_land_is_run(c, other, input, 0, 0);
    lemma_output_is_apart(c, empty, input, 0, held.0, held.1);
}

/// No chunk yields more output than it has bytes, wherever it was cut.
pub proof fn law_output_is_no_longer_than_input(c: Config, s: Scan, input: Seq<u8>)
    ensures
        json_scan::run(c, s, input) matches Ok(t) ==> t.bytes.len() <= s.bytes.len() + input.len(),
{
    json_scan::lemma_output_growth(c, s, input, 0, 0);
}

/// A document that is one numeral, of a length that is held, is accepted exactly when serde_json
/// accepts it.
pub proof fn law_numerals_are_judged_by_serde_json(c: Config, n: Seq<u8>)
    requires
        c.capture_keys.len() <= usize::MAX,
        0 < n.len() <= MAX_NUMBER,
        n[0] == 0x2D || 0x30 <= n[0] <= 0x39,
        forall|i: int| 0 <= i < n.len() ==> json_scan::is_numeral_byte(#[trigger] n[i]),
    ensures
        reading(c, n) is Some <==> json_scan::serde_json_accepts(n),
{
    law_accepts_exactly_json(c, n);
    lemma_all_numeral(n, 0);
    assert(n.subrange(0, n.len() as int) =~= n);
}

proof fn lemma_all_numeral(n: Seq<u8>, i: nat)
    requires
        i <= n.len(),
        forall|j: int| 0 <= j < n.len() ==> json_scan::is_numeral_byte(#[trigger] n[j]),
    ensures
        numeral_end(n, i) == n.len(),
    decreases n.len() - i,
{
    if i < n.len() {
        lemma_all_numeral(n, i + 1);
    }
}

/// What is too long is only ever a numeral over its cap. Everything else that is refused is refused
/// for its syntax, and serde_json's mark for raw values is, as the first key of an object.
pub proof fn law_refusals_are_syntax_but_for_long_numerals(c: Config, s: Scan, b: u8)
    ensures
        json_scan::step(c, s, b) matches Err(r) ==> (r.fail is TooLong <==> s.state == State::Number
            && json_scan::is_numeral_byte(b)),
        s.state == State::Number && json_scan::is_numeral_byte(b) ==> (json_scan::step(c, s, b)
            is Err <==> s.number.len() >= MAX_NUMBER),
        s.state == State::Str && s.esc == Esc::Plain && s.need == 0 && s.role == Role::Key
            && s.first_key && s.key == Some(encode_utf8(RAW_VALUE_TOKEN@)) ==> (json_scan::step(
            c,
            s,
            0x22,
        ) matches Err(r) && r.fail is Syntax),
{
}

/// The caps on what a reader holds are kept whatever it is fed.
pub proof fn law_memory_stays_bounded(c: Config, s: Scan, input: Seq<u8>)
    requires
        c.capture_keys.len() <= usize::MAX,
        json_scan::bounded(c, s),
    ensures
        json_scan::bounded(c, json_scan::start(c)),
        json_scan::run(c, s, input) matches Ok(t) ==> json_scan::bounded(c, t),
{
    lemma_land_is_run(c, s, input, 0, 0);
    lemma_bounded(c, s, input, 0);
}

proof fn lemma_bounded_string(c: Config, s: Scan, b: u8)
    requires
        c.capture_keys.len() <= usize::MAX,
        json_scan::bounded(c, s),
    ensures
        json_scan::string(c, s, b) matches Ok(t) ==> json_scan::bounded(c, t),
{
    if let Some(k) = s.key {
        if c.capture_keys.contains(k) {
            c.capture_keys.index_of_first_ensures(k);
        }
    }
}

proof fn lemma_bounded_structural(c: Config, s: Scan, b: u8)
    requires
        json_scan::bounded(c, s),
    ensures
        json_scan::structural(s, b) matches Ok(t) ==> json_scan::bounded(c, t),
{
    let n = json_scan::note_not_string(s, json_scan::value_target(s));
    assert(json_scan::bounded(c, n));
    assert(json_scan::begin_value(s, b) matches Ok(t) ==> json_scan::bounded(c, t));
}

proof fn lemma_bounded(c: Config, s: Scan, b: Seq<u8>, i: nat)
    requires
        c.capture_keys.len() <= usize::MAX,
        json_scan::bounded(c, s),
    ensures
        land(c, s, b, i) matches Some(t) ==> json_scan::bounded(c, t),
    decreases b.len() - i,
{
    if i < b.len() {
        let x = b[i as int];
        lemma_bounded_string(c, s, x);
        lemma_bounded_structural(c, s, x);
        if let Ok(t) = json_scan::end_number(s) {
            lemma_bounded_structural(c, t, x);
        }
        if let Ok(t) = json_scan::step(c, s, x) {
            assert(json_scan::bounded(c, t));
            lemma_bounded(c, t, b, i + 1);
        }
    }
}

/// A hexadecimal digit.
pub open spec fn hex_byte(d: int) -> u8 {
    if d < 10 {
        (0x30 + d) as u8
    } else {
        (0x61 + d - 10) as u8
    }
}

/// A character as it is written in a JSON string.
pub open spec fn written_char(c: char) -> Seq<u8> {
    if c == '"' {
        seq![0x5Cu8, 0x22]
    } else if c == '\\' {
        seq![0x5Cu8, 0x5C]
    } else if (c as int) < 0x20 {
        seq![0x5Cu8, 0x75, 0x30, 0x30, hex_byte(c as int / 16), hex_byte(c as int % 16)]
    } else {
        encode_scalar(c as u32)
    }
}

/// A text as it is written in a JSON string.
pub open spec fn written(text: Seq<char>) -> Seq<u8>
    decreases text.len(),
{
    if text.len() == 0 {
        Seq::empty()
    } else {
        written_char(text[0]) + written(text.drop_first())
    }
}

/// A text as a JSON string.
pub open spec fn quoted(text: Seq<char>) -> Seq<u8> {
    seq![0x22u8] + written(text) + seq![0x22u8]
}

/// The encoding of a character that is written as it is starts with no byte that means something.
proof fn lemma_plain_scalar(c: char, rest: Seq<u8>)
    requires
        c as int >= 0x20,
        c != '"',
        c != '\\',
    ensures
        ({
            let e = encode_scalar(c as u32);
            let s = e + rest;
            &&& e.len() >= 1
            &&& e[0] >= 0x20 && e[0] != 0x22 && e[0] != 0x5C
            &&& valid_first_scalar(s)
            &&& take_first_scalar(s) == e
            &&& length_of_first_scalar(s) == e.len()
        }),
{
    let one = seq![c];
    let e = encode_scalar(c as u32);
    assert(one.drop_first() =~= Seq::<char>::empty());
    assert(encode_utf8(Seq::<char>::empty()) =~= Seq::<u8>::empty());
    assert(encode_utf8(one) =~= e);
    encode_utf8_first_scalar(one);
    if c <= '\u{7f}' {
        assert(is_ascii_chars(one));
        is_ascii_chars_encode_utf8(one);
        assert(one[0] as u8 == encode_utf8(one)[0]);
    }
    let s = e + rest;
    assert(s[0] == e[0]);
    assert(e.len() >= 2 ==> s[1] == e[1]);
    assert(e.len() >= 3 ==> s[2] == e[2]);
    assert(e.len() >= 4 ==> s[3] == e[3]);
    assert(take_first_scalar(s) =~= e);
}

proof fn lemma_char_reads_back(b: Seq<u8>, i: nat, c: char, rest: Seq<u8>)
    requires
        i <= b.len(),
        b.skip(i as int) == written_char(c) + rest,
    ensures
        char_at(b, i) == Some((encode_scalar(c as u32), i + written_char(c).len())),
        written_char(c).len() > 0,
        i < b.len(),
        b[i as int] != 0x22,
{
    let tail = b.skip(i as int);
    let w = written_char(c);
    assert(tail.len() == b.len() - i);
    assert(tail.len() == w.len() + rest.len());
    assert forall|k: int| 0 <= k < w.len() implies #[trigger] b[i + k] == w[k] by {
        assert(tail[k] == b[i + k]);
        assert((w + rest)[k] == w[k]);
    }
    if c == '"' || c == '\\' {
        assert(b[i as int] == 0x5C && b[i as int + 1] == w[1]);
        lemma_one_byte(c);
    } else if (c as int) < 0x20 {
        let n = c as int;
        assert(b[i as int] == 0x5C && b[i as int + 1] == 0x75 && b[i as int + 2] == 0x30
            && b[i as int + 3] == 0x30 && b[i as int + 4] == hex_byte(n / 16) && b[i as int + 5]
            == hex_byte(n % 16));
        assert(json_scan::hex_value(hex_byte(n / 16)) == Some((n / 16) as u16));
        assert(json_scan::hex_value(hex_byte(n % 16)) == Some((n % 16) as u16));
        assert(n / 16 * 0x10 + n % 16 == n);
        assert(unit_at(b, i + 2) == Some(n as u16));
    } else {
        lemma_plain_scalar(c, rest);
        assert(b[i as int] == w[0]);
    }
}

proof fn lemma_one_byte(c: char)
    requires
        c <= '\u{7f}',
    ensures
        encode_scalar(c as u32) == seq![c as u8],
{
    let one = seq![c];
    assert(one.drop_first() =~= Seq::<char>::empty());
    assert(encode_utf8(Seq::<char>::empty()) =~= Seq::<u8>::empty());
    assert(encode_utf8(one) =~= encode_scalar(c as u32));
    assert(is_ascii_chars(one));
    is_ascii_chars_encode_utf8(one);
    assert(one[0] as u8 == encode_utf8(one)[0]);
    assert(encode_scalar(c as u32) =~= seq![c as u8]);
}

/// A string reads back: what a text was written as is read as the text, whatever follows.
pub proof fn law_a_string_reads_back(b: Seq<u8>, i: nat, text: Seq<char>, rest: Seq<u8>)
    requires
        i <= b.len(),
        b.skip(i as int) == written(text) + seq![0x22u8] + rest,
    ensures
        string_at(b, i) == Some((encode_utf8(text), i + written(text).len() + 1)),
    decreases text.len(),
{
    let tail = b.skip(i as int);
    if text.len() == 0 {
        assert(tail[0] == 0x22);
        assert(b[i as int] == tail[0]);
        assert(encode_utf8(text) =~= Seq::empty());
    } else {
        let c = text[0];
        let more = written(text.drop_first());
        let after = more + seq![0x22u8] + rest;
        assert(tail =~= written_char(c) + after);
        lemma_char_reads_back(b, i, c, after);
        let n = i + written_char(c).len();
        assert(tail.len() == b.len() - i);
        assert(tail.skip(written_char(c).len() as int) =~= after);
        assert(b.skip(n as int) =~= tail.skip(written_char(c).len() as int));
        law_a_string_reads_back(b, n, text.drop_first(), rest);
    }
}

proof fn lemma_quoted_at(b: Seq<u8>, i: nat, text: Seq<char>, rest: Seq<u8>, depth: nat)
    requires
        i <= b.len(),
        b.skip(i as int) == quoted(text) + rest,
    ensures
        i < b.len(),
        b[i as int] == 0x22,
        string_at(b, i + 1) == Some((encode_utf8(text), i + quoted(text).len())),
        value_at(b, i, depth) == Some((Json::Text(encode_utf8(text)), i + quoted(text).len())),
        b.skip((i + quoted(text).len()) as int) == rest,
{
    let tail = b.skip(i as int);
    assert(tail.len() == b.len() - i);
    assert(tail[0] == 0x22);
    assert(b[i as int] == tail[0]);
    assert(tail.skip(1) =~= written(text) + seq![0x22u8] + rest);
    assert(b.skip(i as int + 1) =~= tail.skip(1));
    law_a_string_reads_back(b, i + 1, text, rest);
    assert(tail.skip(quoted(text).len() as int) =~= rest);
    assert(b.skip((i + quoted(text).len()) as int) =~= tail.skip(quoted(text).len() as int));
}

/// A document of one string is that string.
pub proof fn law_a_text_document_reads_back(text: Seq<char>)
    ensures
        document(quoted(text)) == Some(Json::Text(encode_utf8(text))),
{
    let b = quoted(text);
    assert(b.skip(0) =~= b + Seq::empty());
    lemma_quoted_at(b, 0, text, Seq::empty(), 0);
    assert(past_space(b, 0) == 0);
    assert(past_space(b, b.len()) == b.len());
}

/// A document of one member is an object that holds it under its name.
pub proof fn law_a_member_reads_back(key: Seq<char>, text: Seq<char>)
    requires
        key != "$serde_json::private::RawValue"@,
    ensures
        document(seq![0x7Bu8] + quoted(key) + seq![0x3Au8] + quoted(text) + seq![0x7Du8]) == Some(
            Json::Object(seq![(encode_utf8(key), Json::Text(encode_utf8(text)))]),
        ),
{
    let k = quoted(key);
    let v = quoted(text);
    let b = seq![0x7Bu8] + k + seq![0x3Au8] + v + seq![0x7Du8];
    let colon = 1 + k.len();
    let value = colon + 1;
    let end = value + v.len();
    assert(b.skip(1) =~= k + (seq![0x3Au8] + v + seq![0x7Du8]));
    lemma_quoted_at(b, 1, key, seq![0x3Au8] + v + seq![0x7Du8], 1);
    assert(b.skip(value as int) =~= v + seq![0x7Du8]);
    lemma_quoted_at(b, value, text, seq![0x7Du8], 1);
    assert(b[0] == 0x7B && b[colon as int] == 0x3A && b[end as int] == 0x7D);
    assert(b.len() == end + 1);
    assert(past_space(b, 0) == 0);
    assert(past_space(b, 1) == 1);
    assert(past_space(b, colon) == colon);
    assert(past_space(b, value) == value);
    assert(past_space(b, end) == end);
    assert(past_space(b, end + 1) == end + 1);
    if encode_utf8(key) == encode_utf8(RAW_VALUE_TOKEN@) {
        crate::text::lemma_encoding_is_injective(key, RAW_VALUE_TOKEN@);
    }
    let m = (encode_utf8(key), Json::Text(encode_utf8(text)));
    assert(members_at(b, 1, 1, true) == Some((seq![m], end + 1)));
    assert(value_at(b, 0, 0) == Some((Json::Object(seq![m]), end + 1)));
}

/// What is short for a character that cannot be written as it is.
pub proof fn law_short_escapes(b: Seq<u8>, i: nat)
    requires
        i + 1 < b.len(),
        b[i as int] == 0x5C,
    ensures
        b[i as int + 1] == 0x6E ==> char_at(b, i) == Some((seq![0x0Au8], i + 2)),
        b[i as int + 1] == 0x72 ==> char_at(b, i) == Some((seq![0x0Du8], i + 2)),
        b[i as int + 1] == 0x74 ==> char_at(b, i) == Some((seq![0x09u8], i + 2)),
        b[i as int + 1] == 0x62 ==> char_at(b, i) == Some((seq![0x08u8], i + 2)),
        b[i as int + 1] == 0x66 ==> char_at(b, i) == Some((seq![0x0Cu8], i + 2)),
        b[i as int + 1] == 0x2F ==> char_at(b, i) == Some((seq![0x2Fu8], i + 2)),
{
}

/// A character beyond the first 65,536 is read from its two surrogates.
pub proof fn law_surrogates_pair(c: char)
    requires
        c as int >= 0x1_0000,
    ensures
        ({
            let n = c as int - 0x1_0000;
            let high = (0xD800 + n / 0x400) as u16;
            let low = (0xDC00 + n % 0x400) as u16;
            &&& json_scan::is_high_surrogate(high)
            &&& json_scan::is_low_surrogate(low)
            &&& json_scan::paired(high, low) == c as u32
        }),
{
    assert(c as int <= 0x10_ffff);
}

/// Arrays in arrays, `n` deep, with nothing in them.
pub open spec fn nested(n: nat) -> Seq<u8> {
    Seq::new(
        2 * n,
        |i: int|
            if i < n {
                0x5Bu8
            } else {
                0x5D
            },
    )
}

proof fn lemma_nested(n: nat, i: nat)
    requires
        i < n,
        i <= 127,
    ensures
        n <= 127 ==> (value_at(nested(n), i, i) matches Some((_, e)) && e == 2 * n - i),
        n > 127 ==> value_at(nested(n), i, i) is None,
    decreases 128 - i,
{
    let b = nested(n);
    assert(b[i as int] == 0x5B);
    assert(past_space(b, i + 1) == i + 1);
    if i < 127 && i + 1 < n {
        lemma_nested(n, i + 1);
        assert(b[i as int + 1] == 0x5B);
        if n <= 127 {
            let e = (2 * n - (i + 1)) as nat;
            assert(b[e as int] == 0x5D);
            assert(past_space(b, e) == e);
            assert(elements_at(b, i + 1, i + 1) is Some);
        } else {
            assert(elements_at(b, i + 1, i + 1) is None);
        }
    } else if i < 127 {
        assert(b[i as int + 1] == 0x5D);
    }
}

/// Values nest to a depth of 127, and not deeper.
pub proof fn law_values_nest_to_a_limit(n: nat)
    requires
        n > 0,
    ensures
        document(nested(n)) is Some <==> n <= 127,
{
    let b = nested(n);
    assert(b[0] == 0x5B);
    assert(past_space(b, 0) == 0);
    lemma_nested(n, 0);
    assert(past_space(b, b.len()) == b.len());
}

/// A captured text is told as the text it is, unless it is longer than the cap; a value that is no
/// string is not told.
pub proof fn law_captured_texts_are_told(c: Config, text: Seq<char>, j: Json)
    ensures
        encode_utf8(text).len() <= c.cap ==> captured_view(c, Json::Text(encode_utf8(text)))
            == MemberView::Text(text),
        encode_utf8(text).len() > c.cap ==> captured_view(c, Json::Text(encode_utf8(text)))
            == MemberView::TooLong,
        j !is Text ==> captured_view(c, j) == MemberView::NotString,
{
    encode_utf8_decode_utf8(text);
}

/// White space is the space, the tab and the two ends of a line; an escape is one of eight letters
/// and marks, or a number in hexadecimal digits of either case; and a numeral is made of digits,
/// signs, a point and an exponent.
pub proof fn law_bytes_that_mean_something(b: u8)
    ensures
        json_scan::is_space(b) <==> b == 0x20 || b == 0x09 || b == 0x0A || b == 0x0D,
        json_scan::escaped(b) is Some <==> b == 0x22 || b == 0x5C || b == 0x2F || b == 0x62 || b
            == 0x66 || b == 0x6E || b == 0x72 || b == 0x74,
        json_scan::hex_value(b) is Some <==> 0x30 <= b <= 0x39 || 0x41 <= b <= 0x46 || 0x61 <= b
            <= 0x66,
        json_scan::hex_value(b) matches Some(n) ==> n < 16 && (b == 0x30 + n || b == 0x37 + n || b
            == 0x57 + n),
        json_scan::is_numeral_byte(b) <==> 0x30 <= b <= 0x39 || b == 0x2B || b == 0x2D || b == 0x2E
            || b == 0x45 || b == 0x65,
{
}

proof fn lemma_spaces(b: Seq<u8>, i: nat, n: nat)
    requires
        i <= n <= b.len(),
        forall|k: int| i <= k < n ==> b[k] == 0x20 || b[k] == 0x09 || b[k] == 0x0A || b[k] == 0x0D,
        n < b.len() ==> !json_scan::is_space(b[n as int]),
    ensures
        past_space(b, i) == n,
    decreases n - i,
{
    if i < n {
        lemma_spaces(b, i + 1, n);
    }
}

/// White space around a value changes nothing.
pub proof fn law_white_space_changes_nothing(before: Seq<u8>, text: Seq<char>, after: Seq<u8>)
    requires
        forall|k: int|
            0 <= k < before.len() ==> #[trigger] before[k] == 0x20 || before[k] == 0x09 || before[k]
                == 0x0A || before[k] == 0x0D,
        forall|k: int|
            0 <= k < after.len() ==> #[trigger] after[k] == 0x20 || after[k] == 0x09 || after[k]
                == 0x0A || after[k] == 0x0D,
    ensures
        document(before + quoted(text) + after) == document(quoted(text)),
{
    let b = before + quoted(text) + after;
    let i = before.len();
    let e = i + quoted(text).len();
    law_a_text_document_reads_back(text);
    assert(b.skip(i as int) =~= quoted(text) + after);
    lemma_quoted_at(b, i, text, after, 0);
    assert forall|k: int| 0 <= k < i implies b[k] == 0x20 || b[k] == 0x09 || b[k] == 0x0A || b[k]
        == 0x0D by {
        assert(b[k] == before[k]);
    }
    assert forall|k: int| e <= k < b.len() implies b[k] == 0x20 || b[k] == 0x09 || b[k] == 0x0A
        || b[k] == 0x0D by {
        assert(b[k] == after[k - e]);
    }
    lemma_spaces(b, 0, i);
    lemma_spaces(b, e, b.len());
}

/// What follows an element of an array of texts: the other elements, and the end.
pub open spec fn other_elements(texts: Seq<Seq<char>>) -> Seq<u8>
    decreases texts.len(),
{
    if texts.len() == 0 {
        seq![0x5Du8]
    } else {
        seq![0x2Cu8] + quoted(texts[0]) + other_elements(texts.drop_first())
    }
}

/// The values that texts are.
pub open spec fn text_values(texts: Seq<Seq<char>>) -> Seq<Json> {
    texts.map_values(|t: Seq<char>| Json::Text(encode_utf8(t)))
}

proof fn lemma_elements_read_back(b: Seq<u8>, k: nat, texts: Seq<Seq<char>>)
    requires
        k <= b.len(),
        texts.len() > 0,
        b.skip(k as int) == quoted(texts[0]) + other_elements(texts.drop_first()),
    ensures
        elements_at(b, k, 1) == Some((text_values(texts), b.len())),
    decreases texts.len(),
{
    let rest = other_elements(texts.drop_first());
    let e = k + quoted(texts[0]).len();
    lemma_quoted_at(b, k, texts[0], rest, 1);
    assert(b.skip(k as int).len() == b.len() - k);
    assert(b.skip(k as int).len() == quoted(texts[0]).len() + rest.len());
    assert(b.skip(e as int) == rest);
    assert(rest.len() == b.len() - e);
    assert(b[e as int] == rest[0]);
    assert(past_space(b, e) == e);
    assert(text_values(texts)[0] == Json::Text(encode_utf8(texts[0])));
    if texts.len() == 1 {
        assert(rest =~= seq![0x5Du8]);
        assert(text_values(texts) =~= seq![Json::Text(encode_utf8(texts[0]))]);
    } else {
        let others = texts.drop_first();
        assert(rest[0] == 0x2C);
        assert(rest.skip(1) =~= quoted(others[0]) + other_elements(others.drop_first()));
        assert(b.skip(e as int + 1) =~= rest.skip(1));
        lemma_elements_read_back(b, e + 1, others);
        assert(b[e as int + 1] == rest[1]);
        assert(rest[1] == 0x22);
        assert(past_space(b, e + 1) == e + 1);
        assert(seq![Json::Text(encode_utf8(texts[0]))] + text_values(others) =~= text_values(
            texts,
        ));
    }
}

/// An array of texts reads back, in order, whatever their number.
pub proof fn law_an_array_reads_back(texts: Seq<Seq<char>>)
    requires
        texts.len() > 0,
    ensures
        document(seq![0x5Bu8] + quoted(texts[0]) + other_elements(texts.drop_first())) == Some(
            Json::Array(text_values(texts)),
        ),
{
    let b = seq![0x5Bu8] + quoted(texts[0]) + other_elements(texts.drop_first());
    assert(b.skip(1) =~= quoted(texts[0]) + other_elements(texts.drop_first()));
    lemma_elements_read_back(b, 1, texts);
    assert(b[0] == 0x5B);
    assert(b[1] == 0x22);
    assert(past_space(b, 0) == 0);
    assert(past_space(b, 1) == 1);
    assert(past_space(b, b.len()) == b.len());
    assert(value_at(b, 0, 0) == Some((Json::Array(text_values(texts)), b.len())));
}

} // verus!

//! Encodings, digests and random values.

use vstd::prelude::*;
use vstd::string::*;
use vstd::utf8::*;

verus! {

/// What `base64`'s standard engine (padded) writes for `bytes`.
pub uninterp spec fn base64_standard(bytes: Seq<u8>) -> Seq<char>;

/// `base64::engine::general_purpose::STANDARD.encode`: the text is a function of the bytes, named
/// [`base64_standard`].
#[verifier::external_body]
pub(crate) fn to_base64(bytes: &[u8]) -> (r: String)
    ensures
        r@ == base64_standard(bytes@),
{
    base64::Engine::encode(&base64::engine::general_purpose::STANDARD, bytes)
}

/// What `base64`'s URL-safe engine without padding writes for `bytes`.
pub uninterp spec fn base64_url(bytes: Seq<u8>) -> Seq<char>;

/// A character of the URL-safe alphabet.
pub open spec fn is_url_safe(c: char) -> bool {
    'A' <= c <= 'Z' || 'a' <= c <= 'z' || '0' <= c <= '9' || c == '-' || c == '_'
}

/// `base64::engine::general_purpose::URL_SAFE_NO_PAD.encode`: the text is a function of the
/// bytes, named [`base64_url`]. It has four characters for every three bytes, two or three for
/// what is left of them, and all of the URL-safe alphabet.
#[verifier::external_body]
pub(crate) fn to_base64_url(bytes: &[u8]) -> (r: String)
    ensures
        r@ == base64_url(bytes@),
        r@.len() == (bytes@.len() * 4 + 2) / 3,
        forall|i: int| 0 <= i < r@.len() ==> is_url_safe(#[trigger] r@[i]),
{
    base64::Engine::encode(&base64::engine::general_purpose::URL_SAFE_NO_PAD, bytes)
}

/// The SHA-256 digest of `bytes`.
pub uninterp spec fn sha256(bytes: Seq<u8>) -> Seq<u8>;

/// `sha2::Sha256::digest`: the digest is a function of the bytes, named [`sha256`], and has 32 of
/// them.
#[verifier::external_body]
pub(crate) fn sha256_of(bytes: &[u8]) -> (r: Vec<u8>)
    ensures
        r@ == sha256(bytes@),
        r@.len() == 32,
{
    <sha2::Sha256 as sha2::Digest>::digest(bytes).to_vec()
}

/// The HMAC-SHA1 code of `message` under `key`.
pub uninterp spec fn hmac_sha1(key: Seq<u8>, message: Seq<u8>) -> Seq<u8>;

/// `hmac::Hmac` over `sha1::Sha1` (keys of any length are accepted): the code is a function of
/// the key and the message, named [`hmac_sha1`].
#[verifier::external_body]
pub(crate) fn hmac_sha1_of(key: &[u8], message: &[u8]) -> (r: Vec<u8>)
    ensures
        r@ == hmac_sha1(key@, message@),
{
    let mac = <hmac::Hmac<sha1::Sha1> as hmac::Mac>::new_from_slice(key).unwrap();
    hmac::Mac::finalize(hmac::Mac::chain_update(mac, message)).into_bytes().to_vec()
}

/// `rand::RngCore::fill_bytes` of `rand::thread_rng`: that many random bytes.
#[verifier::external_body]
pub(crate) fn random_bytes(count: usize) -> (r: Vec<u8>)
    ensures
        r@.len() == count,
{
    let mut bytes = vec![0u8; count];
    rand::RngCore::fill_bytes(&mut rand::thread_rng(), &mut bytes);
    bytes
}

/// `uuid::Uuid::new_v4` in its hyphenated form: a fresh random identifier of 36 characters.
#[verifier::external_body]
pub(crate) fn random_uuid() -> (r: String)
    ensures
        r@.len() == 36,
{
    uuid::Uuid::new_v4().to_string()
}

/// `uuid::Uuid::new_v4` in its simple form: a fresh random identifier of 32 characters.
#[verifier::external_body]
pub(crate) fn random_uuid_simple() -> (r: String)
    ensures
        r@.len() == 32,
{
    uuid::Uuid::new_v4().simple().to_string()
}

/// The bytes that stand for themselves in a percent-encoded text (RFC 3986: unreserved).
pub open spec fn is_unreserved(b: u8) -> bool {
    0x41 <= b <= 0x5A || 0x61 <= b <= 0x7A || 0x30 <= b <= 0x39 || b == 0x2D || b == 0x2E || b
        == 0x5F || b == 0x7E
}

/// An upper-case hexadecimal digit.
pub open spec fn upper_hex(d: u8) -> char {
    if d < 10 {
        (0x30 + d) as char
    } else {
        (0x41 + d - 10) as char
    }
}

/// A byte, percent-encoded.
pub open spec fn percent_byte(b: u8) -> Seq<char> {
    if is_unreserved(b) {
        seq![b as char]
    } else {
        seq!['%', upper_hex(b / 16), upper_hex((b % 16) as u8)]
    }
}

/// `bytes`, percent-encoded.
pub open spec fn percent_bytes(bytes: Seq<u8>) -> Seq<char>
    decreases bytes.len(),
{
    if bytes.len() == 0 {
        Seq::empty()
    } else {
        percent_bytes(bytes.drop_last()) + percent_byte(bytes.last())
    }
}

/// `text`, percent-encoded.
pub open spec fn percent_encoded(text: Seq<char>) -> Seq<char> {
    percent_bytes(encode_utf8(text))
}

/// `urlencoding::encode` percent-encodes every byte but the unreserved ones, with upper-case
/// hexadecimal digits.
#[verifier::external_body]
pub(crate) fn url_encode(s: &str) -> (r: String)
    ensures
        r@ == percent_encoded(s@),
{
    urlencoding::encode(s).into_owned()
}

/// The value of a hexadecimal digit.
pub open spec fn hex_digit(b: u8) -> Option<u8> {
    if 0x30 <= b <= 0x39 {
        Some((b - 0x30) as u8)
    } else if 0x41 <= b <= 0x46 {
        Some((b - 0x41 + 10) as u8)
    } else if 0x61 <= b <= 0x66 {
        Some((b - 0x61 + 10) as u8)
    } else {
        None
    }
}

/// `bytes` with each `%` and two hexadecimal digits replaced by the byte they stand for.
pub open spec fn percent_decoded(bytes: Seq<u8>) -> Seq<u8>
    decreases bytes.len(),
{
    if bytes.len() == 0 {
        Seq::empty()
    } else if bytes.len() >= 3 && bytes[0] == 0x25 && hex_digit(bytes[1]) is Some && hex_digit(
        bytes[2],
    ) is Some {
        seq![(hex_digit(bytes[1])->0 * 16 + hex_digit(bytes[2])->0) as u8] + percent_decoded(
            bytes.skip(3),
        )
    } else {
        seq![bytes[0]] + percent_decoded(bytes.skip(1))
    }
}

/// `urlencoding::decode` replaces each `%` that two hexadecimal digits follow by the byte they
/// stand for, leaves everything else, and refuses what is then no UTF-8.
#[verifier::external_body]
pub(crate) fn url_decode(s: &str) -> (r: Option<String>)
    ensures
        r is Some <==> valid_utf8(percent_decoded(encode_utf8(s@))),
        r matches Some(t) ==> encode_utf8(t@) == percent_decoded(encode_utf8(s@)),
{
    urlencoding::decode(s).ok().map(|t| t.into_owned())
}

/// Percent-encoding goes byte by byte, from the front as from the end.
proof fn lemma_percent_bytes_front(first: u8, rest: Seq<u8>)
    ensures
        percent_bytes(seq![first] + rest) == percent_byte(first) + percent_bytes(rest),
    decreases rest.len(),
{
    let all = seq![first] + rest;
    if rest.len() == 0 {
        assert(all.drop_last() =~= Seq::empty());
        assert(all.last() == first);
        assert(percent_bytes(Seq::<u8>::empty()) =~= Seq::<char>::empty());
        assert(percent_bytes(rest) =~= Seq::<char>::empty());
        assert(percent_bytes(all) =~= percent_byte(first) + percent_bytes(rest));
    } else {
        assert(all.drop_last() =~= seq![first] + rest.drop_last());
        lemma_percent_bytes_front(first, rest.drop_last());
        assert(percent_bytes(all) =~= percent_byte(first) + percent_bytes(rest));
    }
}

/// What is percent-encoded is plain: letters, digits and a few marks, and the percent sign.
proof fn lemma_percent_bytes_are_plain(bytes: Seq<u8>)
    ensures
        forall|i: int|
            0 <= i < percent_bytes(bytes).len() ==> {
                let c = #[trigger] percent_bytes(bytes)[i];
                'A' <= c <= 'Z' || 'a' <= c <= 'z' || '0' <= c <= '9' || c == '-' || c == '.' || c
                    == '_' || c == '~' || c == '%'
            },
    decreases bytes.len(),
{
    if bytes.len() > 0 {
        lemma_percent_bytes_are_plain(bytes.drop_last());
        let before = percent_bytes(bytes.drop_last());
        let last = percent_byte(bytes.last());
        let b = bytes.last();
        assert(b / 16 < 16 && b % 16 < 16);
        assert forall|i: int| 0 <= i < percent_bytes(bytes).len() implies {
            let c = #[trigger] percent_bytes(bytes)[i];
            'A' <= c <= 'Z' || 'a' <= c <= 'z' || '0' <= c <= '9' || c == '-' || c == '.' || c == '_'
                || c == '~' || c == '%'
        } by {
            if i < before.len() {
                assert(percent_bytes(bytes)[i] == before[i]);
            } else {
                assert(percent_bytes(bytes)[i] == last[i - before.len()]);
            }
        }
    }
}

/// The bytes of a text of plain characters.
pub open spec fn plain_bytes(s: Seq<char>) -> Seq<u8> {
    s.map_values(|c: char| c as u8)
}

proof fn lemma_decoding_undoes_encoding(bytes: Seq<u8>)
    ensures
        percent_decoded(plain_bytes(percent_bytes(bytes))) == bytes,
    decreases bytes.len(),
{
    if bytes.len() == 0 {
        assert(plain_bytes(percent_bytes(bytes)) =~= Seq::empty());
        assert(percent_decoded(plain_bytes(percent_bytes(bytes))) =~= bytes);
    } else {
        let b = bytes[0];
        let rest = bytes.skip(1);
        lemma_decoding_undoes_encoding(rest);
        lemma_percent_bytes_front(b, rest);
        assert(seq![b] + rest =~= bytes);
        let tail = plain_bytes(percent_bytes(rest));
        let all = plain_bytes(percent_bytes(bytes));
        if is_unreserved(b) {
            assert(all =~= seq![b] + tail);
            assert(all[0] == b && b != 0x25);
            assert(all.skip(1) =~= tail);
            assert(percent_decoded(all) =~= bytes);
        } else {
            let h = upper_hex(b / 16) as u8;
            let l = upper_hex((b % 16) as u8) as u8;
            assert(b / 16 < 16 && b % 16 < 16);
            assert(all =~= seq![0x25u8, h, l] + tail);
            assert(all.skip(3) =~= tail);
            lemma_hex(b / 16);
            lemma_hex((b % 16) as u8);
            assert(hex_digit(all[1]) == Some((b / 16) as u8));
            assert(hex_digit(all[2]) == Some((b % 16) as u8));
            assert((b / 16) * 16 + b % 16 == b);
            assert(percent_decoded(all) =~= bytes);
        }
    }
}

proof fn lemma_hex(d: u8)
    requires
        d < 16,
    ensures
        hex_digit(upper_hex(d) as u8) == Some(d),
{
}

/// A percent-encoded text reads back: its bytes, decoded, are those of the text. It holds nothing
/// but letters, digits, `-`, `.`, `_`, `~` and the percent sign, so it can stand in any place of an
/// address.
pub proof fn law_percent_encoding_reads_back(text: Seq<char>)
    ensures
        percent_decoded(encode_utf8(percent_encoded(text))) == encode_utf8(text),
        forall|i: int|
            0 <= i < percent_encoded(text).len() ==> {
                let c = #[trigger] percent_encoded(text)[i];
                'A' <= c <= 'Z' || 'a' <= c <= 'z' || '0' <= c <= '9' || c == '-' || c == '.' || c
                    == '_' || c == '~' || c == '%'
            },
{
    let out = percent_encoded(text);
    lemma_percent_bytes_are_plain(encode_utf8(text));
    lemma_decoding_undoes_encoding(encode_utf8(text));
    assert(vstd::utf8::is_ascii_chars(out)) by {
        assert forall|i: int| 0 <= i < out.len() implies '\0' <= #[trigger] out[i] <= '\u{7f}' by {}
    }
    vstd::utf8::is_ascii_chars_encode_utf8(out);
    assert(encode_utf8(out) =~= plain_bytes(out)) by {
        assert forall|i: int| 0 <= i < out.len() implies encode_utf8(out)[i] == plain_bytes(
            out,
        )[i] by {
            assert(out[i] as u8 == encode_utf8(out)[i]);
        }
    }
}

/// What can stand in any place of an address stays as it is.
pub proof fn law_plain_text_is_not_encoded(c: char)
    requires
        'A' <= c <= 'Z' || 'a' <= c <= 'z' || '0' <= c <= '9' || c == '-' || c == '.' || c == '_'
            || c == '~',
    ensures
        percent_encoded(seq![c]) == seq![c],
        percent_byte(0x20) == "%20"@,
        percent_byte(0x2F) == "%2F"@,
        percent_byte(0x25) == "%25"@,
{
    let s = seq![c];
    assert(vstd::utf8::is_ascii_chars(s));
    vstd::utf8::is_ascii_chars_encode_utf8(s);
    assert(s[0] as u8 == encode_utf8(s)[0]);
    assert(encode_utf8(s) =~= seq![c as u8]);
    assert(seq![c as u8].drop_last() =~= Seq::empty());
    assert(percent_bytes(Seq::<u8>::empty()) =~= Seq::<char>::empty());
    assert(percent_encoded(s) =~= s);
    reveal_strlit("%20");
    reveal_strlit("%2F");
    reveal_strlit("%25");
    assert(percent_byte(0x20) =~= "%20"@);
    assert(percent_byte(0x2F) =~= "%2F"@);
    assert(percent_byte(0x25) =~= "%25"@);
}

} // verus!

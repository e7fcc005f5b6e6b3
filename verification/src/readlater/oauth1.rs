//! OAuth 1.0a (RFC 5849): the signature of a request, and the form encoding of answers.

use vstd::prelude::*;
use vstd::string::*;
use vstd::utf8::{encode_utf8, valid_utf8};

use crate::clock::now;
use crate::codec::{hmac_sha1_of, random_uuid_simple, to_base64, url_decode};
use crate::readlater::order::put_pair;
use crate::text::{
    decimal_u64, find_char, join_strings, replace_char, slice, split, to_upper, trim,
};

verus! {

fn push_hex(out: &mut String, d: u8)
    requires
        d < 16,
    ensures
        final(out)@ == old(out)@.push(crate::codec::upper_hex(d)),
{
    if d < 10 {
        out.push((0x30 + d) as char);
    } else {
        out.push((0x37 + d) as char);
    }
}

/// RFC 3986 percent-encoding as required by OAuth 1.0a (RFC 5849 section 3.6): everything except
/// ALPHA / DIGIT / "-" / "." / "_" / "~" is encoded, with uppercase hex.
pub fn oauth_percent_encode(s: &str) -> (r: String)
    ensures
        r@ == crate::codec::percent_encoded(s@),
{
    let bytes = s.as_bytes();
    let mut out = String::new();
    let mut i: usize = 0;
    assert(out@ =~= crate::codec::percent_bytes(bytes@.take(0)));
    while i < bytes.len()
        invariant
            i <= bytes@.len(),
            bytes@ == encode_utf8(s@),
            out@ == crate::codec::percent_bytes(bytes@.take(i as int)),
        decreases bytes@.len() - i,
    {
        let b: u8 = bytes[i];
        let ghost was = out@;
        assert(bytes@.take(i as int + 1).drop_last() =~= bytes@.take(i as int));
        if (0x41 <= b && b <= 0x5A) || (0x61 <= b && b <= 0x7A) || (0x30 <= b && b <= 0x39) || b
            == 0x2D || b == 0x2E || b == 0x5F || b == 0x7E {
            out.push(b as char);
        } else {
            out.push('%');
            push_hex(&mut out, b / 16);
            push_hex(&mut out, b % 16);
        }
        assert(out@ =~= was + crate::codec::percent_byte(b));
        i += 1;
    }
    assert(bytes@.take(i as int) =~= bytes@);
    out
}

/// Parameters, percent-encoded.
pub open spec fn encoded(params: Seq<(Seq<char>, Seq<char>)>) -> Seq<(Seq<char>, Seq<char>)> {
    params.map_values(
        |p: (Seq<char>, Seq<char>)|
            (crate::codec::percent_encoded(p.0), crate::codec::percent_encoded(p.1)),
    )
}

/// Parameters as they are signed: encoded, in order, each name with its value behind `=`, and `&`
/// between.
pub open spec fn normalized(params: Seq<(Seq<char>, Seq<char>)>) -> Seq<char> {
    crate::text::join_with(
        crate::readlater::order::sorted_by(
            encoded(params),
            crate::readlater::order::pair_order(),
        ).map_values(|p: (Seq<char>, Seq<char>)| p.0 + "="@ + p.1),
        "&"@,
    )
}

/// The signature base string of a request.
pub open spec fn base_string(
    method: Seq<char>,
    url: Seq<char>,
    params: Seq<(Seq<char>, Seq<char>)>,
) -> Seq<char> {
    crate::text::uppercase(method) + "&"@ + crate::codec::percent_encoded(url) + "&"@
        + crate::codec::percent_encoded(normalized(params))
}

/// The signature of a request.
pub open spec fn signature(
    method: Seq<char>,
    url: Seq<char>,
    params: Seq<(Seq<char>, Seq<char>)>,
    consumer_secret: Seq<char>,
    token_secret: Option<Seq<char>>,
) -> Seq<char> {
    let key = crate::codec::percent_encoded(consumer_secret) + "&"@ + crate::codec::percent_encoded(
        match token_secret {
            Some(s) => s,
            None => Seq::empty(),
        },
    );
    crate::codec::base64_standard(
        crate::codec::hmac_sha1(encode_utf8(key), encode_utf8(base_string(method, url, params))),
    )
}

/// The order of the parameters does not matter to what is signed.
pub proof fn law_parameter_order_does_not_matter(
    method: Seq<char>,
    url: Seq<char>,
    a: Seq<(Seq<char>, Seq<char>)>,
    b: Seq<(Seq<char>, Seq<char>)>,
)
    requires
        a.to_multiset() == b.to_multiset(),
    ensures
        base_string(method, url, a) == base_string(method, url, b),
{
    let order = crate::readlater::order::pair_order();
    let x = crate::readlater::order::sorted_by(encoded(a), order);
    let y = crate::readlater::order::sorted_by(encoded(b), order);
    crate::readlater::order::law_pairs_are_ordered();
    crate::readlater::order::law_sorting(encoded(a), order);
    crate::readlater::order::law_sorting(encoded(b), order);
    lemma_encoded_multiset(a, b);
    lemma_sorted_pairs_are_unique(x, y);
}

/// Encoding keeps which parameters there are.
proof fn lemma_encoded_multiset(
    a: Seq<(Seq<char>, Seq<char>)>,
    b: Seq<(Seq<char>, Seq<char>)>,
)
    requires
        a.to_multiset() == b.to_multiset(),
    ensures
        encoded(a).to_multiset() == encoded(b).to_multiset(),
    decreases a.len(),
{
    broadcast use vstd::seq_lib::group_to_multiset_ensures;

    a.to_multiset_ensures();
    b.to_multiset_ensures();
    if a.len() > 0 {
        let x = a.last();
        assert(a.contains(x));
        assert(a.to_multiset().count(x) > 0);
        assert(b.contains(x));
        let j = choose|j: int| 0 <= j < b.len() && b[j] == x;
        let c = b.remove(j);
        let rest = a.drop_last();
        assert(a =~= rest.push(x));
        assert(rest.to_multiset() =~= a.to_multiset().remove(x));
        b.to_multiset_ensures();
        assert(c.to_multiset() =~= b.to_multiset().remove(x));
        lemma_encoded_multiset(rest, c);
        let e = encoded(seq![x])[0];
        assert(encoded(a) =~= encoded(rest).push(e));
        assert(encoded(b).remove(j) =~= encoded(c));
        encoded(b).to_multiset_ensures();
        assert(encoded(b)[j] == e);
        assert(encoded(c).to_multiset() =~= encoded(b).to_multiset().remove(e));
        assert(encoded(b).to_multiset() =~= encoded(c).to_multiset().insert(e));
    } else {
        assert(b.len() == 0);
        assert(a =~= b);
    }
}

/// There is one order in which the same pairs can be.
proof fn lemma_sorted_pairs_are_unique(
    a: Seq<(Seq<char>, Seq<char>)>,
    b: Seq<(Seq<char>, Seq<char>)>,
)
    requires
        crate::readlater::order::in_order(a, crate::readlater::order::pair_order()),
        crate::readlater::order::in_order(b, crate::readlater::order::pair_order()),
        a.to_multiset() == b.to_multiset(),
    ensures
        a == b,
    decreases a.len(),
{
    broadcast use vstd::seq_lib::group_to_multiset_ensures;

    let before = crate::readlater::order::pair_order();
    a.to_multiset_ensures();
    b.to_multiset_ensures();
    assert(a.len() == b.len());
    if a.len() > 0 {
        let x = a.last();
        let y = b.last();
        assert(a[a.len() - 1] == x && b[b.len() - 1] == y);
        assert(a.contains(x) && b.contains(y));
        assert(a.to_multiset().count(x) > 0 && b.to_multiset().count(y) > 0);
        assert(b.contains(x) && a.contains(y));
        let i = choose|i: int| 0 <= i < a.len() && a[i] == y;
        let j = choose|j: int| 0 <= j < b.len() && b[j] == x;
        assert(!before(x, y)) by {
            if i < a.len() - 1 {
                assert(!before(a[a.len() - 1], a[i]));
            } else {
                crate::readlater::order::lemma_text_order(x.0, x.0, x.0);
                crate::readlater::order::lemma_text_order(x.1, x.1, x.1);
            }
        }
        assert(!before(y, x)) by {
            if j < b.len() - 1 {
                assert(!before(b[b.len() - 1], b[j]));
            } else {
                crate::readlater::order::lemma_text_order(x.0, x.0, x.0);
                crate::readlater::order::lemma_text_order(x.1, x.1, x.1);
            }
        }
        crate::readlater::order::lemma_text_order(x.0, y.0, x.0);
        crate::readlater::order::lemma_text_order(x.1, y.1, x.1);
        assert(x == y);
        let c = a.drop_last();
        let d = b.drop_last();
        assert(a =~= c.push(x));
        assert(b =~= d.push(y));
        assert(c.to_multiset() =~= a.to_multiset().remove(x));
        assert(d.to_multiset() =~= b.to_multiset().remove(x));
        assert forall|k: int, m: int| 0 <= k < m < c.len() implies !before(
            #[trigger] c[m],
            #[trigger] c[k],
        ) by {
            assert(c[m] == a[m] && c[k] == a[k]);
        }
        assert forall|k: int, m: int| 0 <= k < m < d.len() implies !before(
            #[trigger] d[m],
            #[trigger] d[k],
        ) by {
            assert(d[m] == b[m] && d[k] == b[k]);
        }
        lemma_sorted_pairs_are_unique(c, d);
    } else {
        assert(a =~= b);
    }
}

/// Signature base string (RFC 5849 section 3.4.1). `base_url` must already be the normalized base
/// string URI (no query/fragment); `params` are decoded name/value pairs.
pub fn oauth1_base_string(method: &str, base_url: &str, params: &Vec<(&str, &str)>) -> (r: String)
    ensures
        r@ == base_string(method@, base_url@, crate::integrations::oauth::pairs(params@)),
{
    let ghost all = crate::integrations::oauth::pairs(params@);
    let ghost order = crate::readlater::order::pair_order();
    let mut pairs: Vec<(String, String)> = Vec::new();
    let mut i: usize = 0;
    assert(encoded(all).take(0) =~= Seq::empty());
    assert(crate::readlater::order::string_pairs(pairs@) =~= Seq::empty());
    while i < params.len()
        invariant
            i <= params@.len(),
            all == crate::integrations::oauth::pairs(params@),
            order == crate::readlater::order::pair_order(),
            crate::readlater::order::string_pairs(pairs@) == crate::readlater::order::sorted_by(
                encoded(all).take(i as int),
                order,
            ),
        decreases params@.len() - i,
    {
        let (k, v) = params[i];
        assert(all[i as int] == (k@, v@));
        assert(encoded(all).take(i as int + 1).drop_last() =~= encoded(all).take(i as int));
        put_pair(&mut pairs, (oauth_percent_encode(k), oauth_percent_encode(v)));
        i += 1;
    }
    assert(encoded(all).take(i as int) =~= encoded(all));
    let ghost sorted = crate::readlater::order::string_pairs(pairs@);
    let ghost wanted = sorted.map_values(|p: (Seq<char>, Seq<char>)| p.0 + "="@ + p.1);
    let mut pieces: Vec<String> = Vec::new();
    let mut i: usize = 0;
    assert(crate::text::texts(pieces@) =~= wanted.take(0));
    while i < pairs.len()
        invariant
            i <= pairs@.len(),
            sorted == crate::readlater::order::string_pairs(pairs@),
            wanted == sorted.map_values(|p: (Seq<char>, Seq<char>)| p.0 + "="@ + p.1),
            crate::text::texts(pieces@) == wanted.take(i as int),
        decreases pairs@.len() - i,
    {
        let mut piece = pairs[i].0.clone();
        piece.push_str("=");
        piece.push_str(pairs[i].1.as_str());
        let ghost was = crate::text::texts(pieces@);
        let ghost text = piece@;
        pieces.push(piece);
        assert(crate::text::texts(pieces@) =~= was.push(text));
        assert(wanted.take(i as int + 1) =~= was.push(text));
        i += 1;
    }
    assert(wanted.take(i as int) =~= wanted);
    let joined = join_strings(&pieces, "&");
    let mut out = to_upper(method);
    out.push_str("&");
    out.push_str(oauth_percent_encode(base_url).as_str());
    out.push_str("&");
    out.push_str(oauth_percent_encode(joined.as_str()).as_str());
    out
}

/// OAuth 1.0a HMAC-SHA1 signature (RFC 5849 section 3.4.2), base64-encoded.
pub fn oauth1_signature(
    method: &str,
    base_url: &str,
    params: &Vec<(&str, &str)>,
    consumer_secret: &str,
    token_secret: Option<&str>,
) -> (r: String)
    ensures
        r@ == signature(
            method@,
            base_url@,
            crate::integrations::oauth::pairs(params@),
            consumer_secret@,
            crate::text::text_of_str(token_secret),
        ),
{
    let mut key = oauth_percent_encode(consumer_secret);
    key.push_str("&");
    proof {
        reveal_strlit("");
        assert(""@ =~= Seq::empty());
    }
    key.push_str(
        oauth_percent_encode(
            match token_secret {
                Some(s) => s,
                None => "",
            },
        ).as_str(),
    );
    let base = oauth1_base_string(method, base_url, params);
    to_base64(hmac_sha1_of(key.as_str().as_bytes(), base.as_str().as_bytes()).as_slice())
}

/// The parameters that sign a request.
pub open spec fn oauth_params(
    consumer_key: Seq<char>,
    nonce: Seq<char>,
    timestamp: Seq<char>,
    token: Option<Seq<char>>,
) -> Seq<(Seq<char>, Seq<char>)> {
    seq![
        ("oauth_consumer_key"@, consumer_key),
        ("oauth_nonce"@, nonce),
        ("oauth_signature_method"@, "HMAC-SHA1"@),
        ("oauth_timestamp"@, timestamp),
    ] + (match token {
        Some(t) => seq![("oauth_token"@, t)],
        None => Seq::empty(),
    }) + seq![("oauth_version"@, "1.0"@)]
}

/// The `Authorization` header of a signed `POST`.
pub open spec fn authorization(
    consumer_key: Seq<char>,
    consumer_secret: Seq<char>,
    url: Seq<char>,
    token: Option<Seq<char>>,
    token_secret: Option<Seq<char>>,
    body: Seq<(Seq<char>, Seq<char>)>,
    nonce: Seq<char>,
    timestamp: Seq<char>,
) -> Seq<char> {
    let params = oauth_params(consumer_key, nonce, timestamp, token);
    let signed = params.push(
        ("oauth_signature"@, signature("POST"@, url, params + body, consumer_secret, token_secret)),
    );
    "OAuth "@ + crate::text::join_with(
        signed.map_values(
            |p: (Seq<char>, Seq<char>)|
                crate::codec::percent_encoded(p.0) + "=\""@ + crate::codec::percent_encoded(p.1)
                    + "\""@,
        ),
        ", "@,
    )
}

/// The `Authorization` header of a `POST` to `url` signed with OAuth 1.0a HMAC-SHA1. The `body`
/// parameters are signed too. There is no token in the request for one.
pub fn authorization_header(
    consumer_key: &str,
    consumer_secret: &str,
    url: &str,
    token: Option<&str>,
    token_secret: Option<&str>,
    body: &Vec<(&str, &str)>,
    nonce: &str,
    timestamp: &str,
) -> (r: String)
    ensures
        r@ == authorization(
            consumer_key@,
            consumer_secret@,
            url@,
            crate::text::text_of_str(token),
            crate::text::text_of_str(token_secret),
            crate::integrations::oauth::pairs(body@),
            nonce@,
            timestamp@,
        ),
{
    let mut params: Vec<(&str, &str)> = vec![
        ("oauth_consumer_key", consumer_key),
        ("oauth_nonce", nonce),
        ("oauth_signature_method", "HMAC-SHA1"),
        ("oauth_timestamp", timestamp),
    ];
    if let Some(t) = token {
        params.push(("oauth_token", t));
    }
    params.push(("oauth_version", "1.0"));
    let ghost own = crate::integrations::oauth::pairs(params@);
    assert(own =~= oauth_params(
        consumer_key@,
        nonce@,
        timestamp@,
        crate::text::text_of_str(token),
    ));
    let n: usize = params.len();
    let ghost extra = crate::integrations::oauth::pairs(body@);
    let mut i: usize = 0;
    assert(own + extra.take(0) =~= own);
    while i < body.len()
        invariant
            i <= body@.len(),
            extra == crate::integrations::oauth::pairs(body@),
            params@.len() == n + i,
            crate::integrations::oauth::pairs(params@) == own + extra.take(i as int),
            own.len() == n,
        decreases body@.len() - i,
    {
        let ghost was = crate::integrations::oauth::pairs(params@);
        params.push(body[i]);
        assert(crate::integrations::oauth::pairs(params@) =~= was.push(extra[i as int]));
        assert(own + extra.take(i as int + 1) =~= was.push(extra[i as int]));
        i += 1;
    }
    assert(extra.take(i as int) =~= extra);
    let signature = oauth1_signature("POST", url, &params, consumer_secret, token_secret);
    let ghost full = params@;
    params.truncate(n);
    assert(params@ =~= full.take(n as int));
    assert forall|k: int| 0 <= k < n implies crate::integrations::oauth::pairs(params@)[k]
        == own[k] by {
        assert(crate::integrations::oauth::pairs(full)[k] == (own + extra)[k]);
    }
    assert(crate::integrations::oauth::pairs(params@) =~= own);
    params.push(("oauth_signature", signature.as_str()));
    let ghost signed = crate::integrations::oauth::pairs(params@);
    assert(signed =~= own.push(("oauth_signature"@, signature@)));
    let ghost wanted = signed.map_values(
        |p: (Seq<char>, Seq<char>)|
            crate::codec::percent_encoded(p.0) + "=\""@ + crate::codec::percent_encoded(p.1)
                + "\""@,
    );
    let mut pieces: Vec<String> = Vec::new();
    let mut i: usize = 0;
    assert(crate::text::texts(pieces@) =~= wanted.take(0));
    while i < params.len()
        invariant
            i <= params@.len(),
            signed == crate::integrations::oauth::pairs(params@),
            wanted == signed.map_values(
                |p: (Seq<char>, Seq<char>)|
                    crate::codec::percent_encoded(p.0) + "=\""@ + crate::codec::percent_encoded(p.1)
                        + "\""@,
            ),
            crate::text::texts(pieces@) == wanted.take(i as int),
        decreases params@.len() - i,
    {
        let (k, v) = params[i];
        let mut piece = oauth_percent_encode(k);
        piece.push_str("=\"");
        piece.push_str(oauth_percent_encode(v).as_str());
        piece.push_str("\"");
        let ghost was = crate::text::texts(pieces@);
        let ghost text = piece@;
        assert(signed[i as int] == (k@, v@));
        pieces.push(piece);
        assert(crate::text::texts(pieces@) =~= was.push(text));
        assert(wanted.take(i as int + 1) =~= was.push(text));
        i += 1;
    }
    assert(wanted.take(i as int) =~= wanted);
    let mut out = "OAuth ".to_owned();
    out.push_str(join_strings(&pieces, ", ").as_str());
    out
}

/// The `Authorization` header of a `POST` that is signed now, with a nonce of its own.
pub fn signed_post(
    consumer_key: &str,
    consumer_secret: &str,
    url: &str,
    token: Option<&str>,
    token_secret: Option<&str>,
    body: &Vec<(&str, &str)>,
) -> (r: String)
    ensures
        exists|nonce: Seq<char>, seconds: nat|
            nonce.len() == 32 && #[trigger] authorization(
                consumer_key@,
                consumer_secret@,
                url@,
                crate::text::text_of_str(token),
                crate::text::text_of_str(token_secret),
                crate::integrations::oauth::pairs(body@),
                nonce,
                crate::text::decimal(seconds),
            ) == r@,
{
    let timestamp = decimal_u64(now().seconds as u64);
    let nonce = random_uuid_simple();
    authorization_header(
        consumer_key,
        consumer_secret,
        url,
        token,
        token_secret,
        body,
        nonce.as_str(),
        timestamp.as_str(),
    )
}

/// A value of a form: `+` is a space, and percent-encoding is undone where that gives a text.
pub open spec fn is_form_value(raw: Seq<char>, value: Seq<char>) -> bool {
    let spaced = raw.map_values(
        |c: char|
            if c == '+' {
                ' '
            } else {
                c
            },
    );
    let bytes = crate::codec::percent_decoded(encode_utf8(spaced));
    if valid_utf8(bytes) {
        encode_utf8(value) == bytes
    } else {
        value == spaced
    }
}

fn form_value(raw: &str) -> (r: String)
    ensures
        is_form_value(raw@, r@),
{
    let spaced = replace_char(raw, '+', ' ');
    match url_decode(spaced.as_str()) {
        Some(v) => v,
        None => spaced,
    }
}

/// The pairs of a form that are not empty.
pub open spec fn form_pairs(pieces: Seq<Seq<char>>) -> Seq<Seq<char>>
    decreases pieces.len(),
{
    if pieces.len() == 0 {
        Seq::empty()
    } else {
        let before = form_pairs(pieces.drop_last());
        if pieces.last().len() == 0 {
            before
        } else {
            before.push(pieces.last())
        }
    }
}

/// The name in a pair of a form: what stands before the first `=`.
pub open spec fn pair_name(pair: Seq<char>) -> Seq<char> {
    pair.take(crate::text::first_index(pair, '=') as int)
}

/// The value in a pair of a form: what stands behind the first `=`; nothing without one.
pub open spec fn pair_value(pair: Seq<char>) -> Seq<char> {
    let n = crate::text::first_index(pair, '=') as int;
    if n < pair.len() {
        pair.skip(n + 1)
    } else {
        Seq::empty()
    }
}

/// Parse an `application/x-www-form-urlencoded` body into decoded name/value pairs.
pub fn parse_form_urlencoded(body: &str) -> (r: Vec<(String, String)>)
    ensures
        ({
            let pairs = form_pairs(
                crate::text::split_on(
                    crate::text::trimmed_space_end(crate::text::trimmed_start(body@)),
                    '&',
                ),
            );
            &&& r@.len() == pairs.len()
            &&& forall|i: int|
                0 <= i < pairs.len() ==> is_form_value(
                    pair_name(#[trigger] pairs[i]),
                    r@[i].0@,
                ) && is_form_value(pair_value(pairs[i]), r@[i].1@)
        }),
{
    let parts = split(trim(body), '&');
    let ghost all = crate::text::slice_texts(parts@);
    let mut out: Vec<(String, String)> = Vec::new();
    let mut i: usize = 0;
    assert(all.take(0) =~= Seq::empty());
    while i < parts.len()
        invariant
            i <= parts@.len(),
            all == crate::text::slice_texts(parts@),
            out@.len() == form_pairs(all.take(i as int)).len(),
            forall|k: int|
                0 <= k < out@.len() ==> is_form_value(
                    pair_name(#[trigger] form_pairs(all.take(i as int))[k]),
                    out@[k].0@,
                ) && is_form_value(pair_value(form_pairs(all.take(i as int))[k]), out@[k].1@),
        decreases parts@.len() - i,
    {
        let part = parts[i];
        let ghost before = form_pairs(all.take(i as int));
        let ghost now = form_pairs(all.take(i as int + 1));
        let ghost was = out@;
        assert(all.take(i as int + 1).drop_last() =~= all.take(i as int));
        assert(all.take(i as int + 1).last() == part@);
        if !part.is_empty() {
            let end: usize = crate::text::char_count(part);
            let n: usize = find_char(part, '=');
            let name = slice(part, 0, n);
            assert(name@ =~= pair_name(part@));
            let value = if n < end {
                slice(part, n + 1, end)
            } else {
                ""
            };
            proof {
                reveal_strlit("");
                assert(value@ =~= pair_value(part@));
            }
            out.push((form_value(name), form_value(value)));
            assert forall|k: int| 0 <= k < out@.len() implies is_form_value(
                pair_name(#[trigger] now[k]),
                out@[k].0@,
            ) && is_form_value(pair_value(now[k]), out@[k].1@) by {
                if k < was.len() {
                    assert(now[k] == before[k]);
                    assert(out@[k] == was[k]);
                } else {
                    assert(now[k] == part@);
                }
            }
        }
        i += 1;
    }
    assert(all.take(i as int) =~= all);
    out
}

/// A signature is made, with the secrets of the consumer and of the token, of the method, the
/// address and every parameter.
pub proof fn law_a_signature_covers_the_request(
    method: Seq<char>,
    url: Seq<char>,
    params: Seq<(Seq<char>, Seq<char>)>,
    consumer_secret: Seq<char>,
    token_secret: Seq<char>,
)
    ensures
        signature(method, url, params, consumer_secret, Some(token_secret))
            == crate::codec::base64_standard(
            crate::codec::hmac_sha1(
                encode_utf8(
                    crate::codec::percent_encoded(consumer_secret) + "&"@
                        + crate::codec::percent_encoded(token_secret),
                ),
                encode_utf8(base_string(method, url, params)),
            ),
        ),
        signature(method, url, params, consumer_secret, None) == signature(
            method,
            url,
            params,
            consumer_secret,
            Some(Seq::empty()),
        ),
        exists|rest: Seq<char>|
            base_string(method, url, params) == #[trigger] (crate::text::uppercase(method) + "&"@
                + crate::codec::percent_encoded(url) + "&"@ + rest),
        base_string(method, url, seq![]) == crate::text::uppercase(method) + "&"@
            + crate::codec::percent_encoded(url) + "&"@ + crate::codec::percent_encoded(
            Seq::empty(),
        ),
{
    assert(base_string(method, url, params) == crate::text::uppercase(method) + "&"@
        + crate::codec::percent_encoded(url) + "&"@ + crate::codec::percent_encoded(
        normalized(params),
    ));
    let none = Seq::<(Seq<char>, Seq<char>)>::empty();
    let order = crate::readlater::order::pair_order();
    assert(encoded(none) =~= none);
    assert(crate::readlater::order::sorted_by(none, order) =~= none);
    assert(none.map_values(|p: (Seq<char>, Seq<char>)| p.0 + "="@ + p.1) =~= Seq::empty());
    assert(normalized(none) =~= Seq::empty());
    assert(seq![] =~= none);
}

/// One parameter is written as its name and its value, both encoded.
pub proof fn law_a_parameter_is_written_encoded(name: Seq<char>, value: Seq<char>)
    ensures
        normalized(seq![(name, value)]) == crate::codec::percent_encoded(name) + "="@
            + crate::codec::percent_encoded(value),
{
    let one = seq![(name, value)];
    let order = crate::readlater::order::pair_order();
    let e = encoded(one);
    assert(e.len() == 1);
    assert(e.drop_last() =~= Seq::empty());
    assert(crate::readlater::order::sorted_by(e.drop_last(), order) =~= Seq::empty());
    assert(crate::readlater::order::sorted_by(e, order) =~= e);
    let written = e.map_values(|p: (Seq<char>, Seq<char>)| p.0 + "="@ + p.1);
    assert(written[0] == crate::codec::percent_encoded(name) + "="@
        + crate::codec::percent_encoded(value));
}

/// What is signed names the consumer, the nonce, the time and how it is signed, and the token where
/// there is one.
pub proof fn law_what_is_signed(
    consumer_key: Seq<char>,
    nonce: Seq<char>,
    timestamp: Seq<char>,
    token: Option<Seq<char>>,
)
    ensures
        ({
            let p = oauth_params(consumer_key, nonce, timestamp, token);
            &&& p.contains(("oauth_consumer_key"@, consumer_key))
            &&& p.contains(("oauth_nonce"@, nonce))
            &&& p.contains(("oauth_timestamp"@, timestamp))
            &&& p.contains(("oauth_signature_method"@, "HMAC-SHA1"@))
            &&& p.contains(("oauth_version"@, "1.0"@))
            &&& token matches Some(t) ==> p.contains(("oauth_token"@, t)) && p.len() == 6
            &&& token is None ==> p.len() == 5
        }),
{
    let p = oauth_params(consumer_key, nonce, timestamp, token);
    assert(p[0] == ("oauth_consumer_key"@, consumer_key));
    assert(p[1] == ("oauth_nonce"@, nonce));
    assert(p[2] == ("oauth_signature_method"@, "HMAC-SHA1"@));
    assert(p[3] == ("oauth_timestamp"@, timestamp));
    match token {
        Some(t) => {
            assert(p[4] == ("oauth_token"@, t));
            assert(p[5] == ("oauth_version"@, "1.0"@));
        },
        None => {
            assert(p[4] == ("oauth_version"@, "1.0"@));
        },
    }
}

/// A form reads back: a name and a value that were written with a sign of equality between them are
/// told apart at the first, and a value that was encoded is read as itself.
pub proof fn law_a_form_reads_back(name: Seq<char>, value: Seq<char>, text: Seq<char>)
    requires
        !name.contains('='),
    ensures
        pair_name(name + seq!['='] + value) == name,
        pair_value(name + seq!['='] + value) == value,
        pair_name(name) == name,
        pair_value(name).len() == 0,
        is_form_value(crate::codec::percent_encoded(text), text),
{
    let pair = name + seq!['='] + value;
    crate::text::law_first_index(pair, '=');
    crate::text::law_first_index(name, '=');
    let n = crate::text::first_index(pair, '=') as int;
    assert(pair[name.len() as int] == '=');
    assert(n == name.len()) by {
        if n < name.len() {
            assert(pair[n] == name[n]);
            assert(name.contains(name[n]));
        }
        if n > name.len() {
            assert(pair[name.len() as int] != '=');
        }
    }
    assert(pair.take(n) =~= name);
    assert(pair.skip(n + 1) =~= value);
    assert(name.take(name.len() as int) =~= name);
    let raw = crate::codec::percent_encoded(text);
    crate::codec::law_percent_encoding_reads_back(text);
    let spaced = raw.map_values(
        |c: char|
            if c == '+' {
                ' '
            } else {
                c
            },
    );
    assert(spaced =~= raw);
    vstd::utf8::encode_utf8_valid_utf8(text);
}

/// A plus sign stands for a space: a plain text whose spaces were written so is read as itself.
pub proof fn law_a_plus_sign_is_read_as_a_space(text: Seq<char>)
    requires
        vstd::utf8::is_ascii_chars(text),
        !text.contains('%'),
        !text.contains('+'),
    ensures
        is_form_value(
            text.map_values(
                |c: char|
                    if c == ' ' {
                        '+'
                    } else {
                        c
                    },
            ),
            text,
        ),
{
    let raw = text.map_values(
        |c: char|
            if c == ' ' {
                '+'
            } else {
                c
            },
    );
    let spaced = raw.map_values(
        |c: char|
            if c == '+' {
                ' '
            } else {
                c
            },
    );
    assert(spaced =~= text) by {
        assert forall|i: int| 0 <= i < text.len() implies spaced[i] == text[i] by {
            assert(text.contains(text[i]));
        }
    }
    vstd::utf8::is_ascii_chars_encode_utf8(text);
    vstd::utf8::encode_utf8_valid_utf8(text);
    let bytes = encode_utf8(text);
    assert forall|i: int| 0 <= i < bytes.len() implies #[trigger] bytes[i] != 0x25 by {
        assert(text[i] as u8 == bytes[i]);
        assert(text.contains(text[i]));
    }
    lemma_nothing_to_decode(bytes);
}

proof fn lemma_nothing_to_decode(bytes: Seq<u8>)
    requires
        forall|i: int| 0 <= i < bytes.len() ==> #[trigger] bytes[i] != 0x25,
    ensures
        crate::codec::percent_decoded(bytes) == bytes,
    decreases bytes.len(),
{
    if bytes.len() == 0 {
        assert(crate::codec::percent_decoded(bytes) =~= bytes);
    } else {
        assert forall|i: int| 0 <= i < bytes.skip(1).len() implies #[trigger] bytes.skip(1)[i]
            != 0x25 by {
            assert(bytes.skip(1)[i] == bytes[i + 1]);
        }
        lemma_nothing_to_decode(bytes.skip(1));
        assert(seq![bytes[0]] + bytes.skip(1) =~= bytes);
    }
}

/// Pieces of nothing are no pairs; all others are, in order.
pub proof fn law_the_pairs_of_a_form(pieces: Seq<Seq<char>>, piece: Seq<char>)
    ensures
        form_pairs(Seq::empty()).len() == 0,
        piece.len() > 0 ==> form_pairs(pieces.push(piece)) == form_pairs(pieces).push(piece),
        piece.len() == 0 ==> form_pairs(pieces.push(piece)) == form_pairs(pieces),
{
    assert(pieces.push(piece).drop_last() =~= pieces);
}

/// The header of a request ends with the signature of the request, over its own parameters and
/// those of its body.
pub proof fn law_a_header_carries_the_signature(
    consumer_key: Seq<char>,
    consumer_secret: Seq<char>,
    url: Seq<char>,
    token: Option<Seq<char>>,
    token_secret: Option<Seq<char>>,
    body: Seq<(Seq<char>, Seq<char>)>,
    nonce: Seq<char>,
    timestamp: Seq<char>,
)
    ensures
        exists|head: Seq<char>|
            authorization(
                consumer_key,
                consumer_secret,
                url,
                token,
                token_secret,
                body,
                nonce,
                timestamp,
            ) == #[trigger] ("OAuth "@ + head) + (crate::codec::percent_encoded(
                "oauth_signature"@,
            ) + "=\""@ + crate::codec::percent_encoded(
                signature(
                    "POST"@,
                    url,
                    oauth_params(consumer_key, nonce, timestamp, token) + body,
                    consumer_secret,
                    token_secret,
                ),
            ) + "\""@),
{
    let params = oauth_params(consumer_key, nonce, timestamp, token);
    let sig = signature("POST"@, url, params + body, consumer_secret, token_secret);
    let written = |p: (Seq<char>, Seq<char>)|
        crate::codec::percent_encoded(p.0) + "=\""@ + crate::codec::percent_encoded(p.1) + "\""@;
    let all = params.push(("oauth_signature"@, sig)).map_values(written);
    assert(all.drop_last() =~= params.map_values(written));
    assert(all.len() >= 2);
    let last = all.last();
    assert(last == crate::codec::percent_encoded("oauth_signature"@) + "=\""@
        + crate::codec::percent_encoded(sig) + "\""@);
    let head = crate::text::join_with(all.drop_last(), ", "@) + ", "@;
    assert("OAuth "@ + crate::text::join_with(all, ", "@) =~= ("OAuth "@ + head) + last);
}

} // verus!

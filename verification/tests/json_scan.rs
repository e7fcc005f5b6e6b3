//! The streaming JSON scanner, held against `serde_json`.

use remarkable_server::json_scan::{
    JsonScanner, Member, Output, ScanError, Scanned, Streamed, MAX_DEPTH, MAX_NUMBER,
    RAW_VALUE_TOKEN,
};
use serde_json::Value;

const FIELDS: &[&str] = &["fileHash", "filePath"];

/// Scan `doc` fed in pieces cut at `cuts`; the streamed bytes are those of the last occurrence, as a
/// caller honouring `restart` would keep them.
fn scan(doc: &[u8], cuts: &[usize]) -> Result<(Scanned, Vec<u8>), ScanError> {
    let mut cuts: Vec<usize> = cuts.iter().copied().filter(|&c| c <= doc.len()).collect();
    cuts.extend([0, doc.len()]);
    cuts.sort_unstable();
    let mut sc = JsonScanner::new("payload", FIELDS, 64);
    let mut out = Output::default();
    let mut streamed = Vec::new();
    for w in cuts.windows(2) {
        sc.feed(&doc[w[0]..w[1]], &mut out)?;
        assert!(out.bytes.len() <= w[1] - w[0]);
        if std::mem::take(&mut out.restart) {
            streamed.clear();
        }
        streamed.append(&mut out.bytes);
    }
    let scanned = sc.finish()?;
    if scanned.streamed != Streamed::Text {
        // A caller refuses the document then; what an earlier occurrence sent is moot.
        streamed.clear();
    }
    Ok((scanned, streamed))
}

/// What `Value` gives for the same document, in the scanner's terms.
fn expected(doc: &[u8]) -> Option<(Vec<Member>, Streamed, Vec<u8>)> {
    let v: Value = serde_json::from_slice(doc).ok()?;
    let member = |k: &str| match v.get(k) {
        None => Member::Absent,
        Some(Value::String(s)) if s.len() > 64 => Member::TooLong,
        Some(Value::String(s)) => Member::Text(s.clone()),
        Some(_) => Member::NotString,
    };
    let (streamed, bytes) = match v.get("payload") {
        None => (Streamed::Absent, Vec::new()),
        Some(Value::String(s)) => (Streamed::Text, s.clone().into_bytes()),
        Some(_) => (Streamed::NotString, Vec::new()),
    };
    Some((FIELDS.iter().map(|k| member(k)).collect(), streamed, bytes))
}

fn agrees(doc: &[u8], cuts: &[usize]) -> Result<(), String> {
    let got = scan(doc, cuts)
        .ok()
        .map(|(s, bytes)| (s.captured, s.streamed, bytes));
    let want = expected(doc);
    if got == want {
        Ok(())
    } else {
        Err(format!(
            "{:?} cuts {cuts:?}: scanner {got:?}, serde_json {want:?}",
            String::from_utf8_lossy(doc)
        ))
    }
}

#[test]
fn splits_anywhere_including_inside_escapes() {
    // '/' escaped as "\/" (as some encoders write base64), \u escapes (one a
    // surrogate pair), escaped keys, a duplicate blob member, raw UTF-8.
    let doc = r#" { "fileH\u0061sh" : "ab\/c" , "payload":"QU\/\u0041+/=\n", "x":[1,-2.5e3,{"y":null}],
        "filePath":"d\u00e9j\u00e0 \ud83d\ude00 \u00e9", "p\u0061yload" : "QUJD\/w==" , "z":"é😀"}"#
        .as_bytes();
    let (s, bytes) = scan(doc, &[]).unwrap();
    assert_eq!(bytes, b"QUJD/w==");
    assert_eq!(s.streamed, Streamed::Text);
    assert_eq!(s.captured[0], Member::Text("ab/c".into()));
    assert_eq!(s.captured[1], Member::Text("déjà 😀 é".into()));
    agrees(doc, &[]).unwrap();
    // Every two-piece split, and one byte at a time.
    for k in 0..=doc.len() {
        agrees(doc, &[k]).unwrap();
    }
    let every: Vec<usize> = (0..doc.len()).collect();
    agrees(doc, &every).unwrap();
}

#[test]
fn depth_limit_matches_serde_json() {
    for depth in [MAX_DEPTH - 1, MAX_DEPTH, MAX_DEPTH + 1] {
        for (open, close) in [("[", "]"), ("{\"k\":", "}")] {
            // `depth` containers in all, the top-level object included.
            let inner = depth - 1;
            let doc = format!("{{\"a\":{}0{}}}", open.repeat(inner), close.repeat(inner));
            assert_eq!(
                serde_json::from_str::<Value>(&doc).is_ok(),
                depth <= MAX_DEPTH,
                "{depth}"
            );
            agrees(doc.as_bytes(), &[]).unwrap();
        }
    }
}

#[test]
fn numbers_are_judged_by_serde_json() {
    for n in [
        "0",
        "-0",
        "1.5e3",
        "1E+2",
        "1e400",
        "-1e400",
        "1e-400",
        "01",
        "1.",
        ".5",
        "-",
        "1e",
        "+1",
        "1.5e3.2",
        "123456789012345678901234567890",
        "0e99999999999",
    ] {
        agrees(format!("{{\"n\":{n}}}").as_bytes(), &[]).unwrap();
        agrees(n.as_bytes(), &[]).unwrap();
        agrees(format!("[{n} ]").as_bytes(), &[1, 2]).unwrap();
    }
    let long = format!("[{}]", "1".repeat(MAX_NUMBER + 1));
    assert_eq!(
        scan(long.as_bytes(), &[3]).unwrap_err(),
        ScanError::TooLong { what: "numeral" }
    );
}

#[test]
fn strings_are_validated_like_serde_json() {
    let cases: &[&[u8]] = &[
        br#""\ud83d\ude00""#,
        br#""\ud83d""#,
        br#""\ude00""#,
        br#""\ud83d\u0041""#,
        br#""\ud83d\ud83d\ude00""#,
        br#""\ud83dx""#,
        br#""\ud83d\n""#,
        br#""\u00""#,
        br#""\u00g0""#,
        br#""\x""#,
        b"\"a\x01b\"",
        b"\"\xc3\xa9\"",
        b"\"\xc3\"",
        b"\"\xc3\\u0041\"",
        b"\"\xe0\x80\x80\"",
        b"\"\xed\xa0\x80\"",
        b"\"\xf4\x90\x80\x80\"",
        b"\"\xff\"",
        b"\"\x7f\"",
        b"\"abc",
    ];
    for s in cases {
        for doc in [
            s.to_vec(),
            [&b"{\"payload\":"[..], s, b"}"].concat(),
            [&b"{\"fileHash\":"[..], s, b"}"].concat(),
            [&b"{"[..], s, b":1}"].concat(),
        ] {
            for k in 0..=doc.len() {
                agrees(&doc, &[k]).unwrap();
            }
        }
    }
}

#[test]
fn member_rules_follow_value() {
    for doc in [
        &br#"{"payload":"QUJD","payload":7}"#[..],
        br#"{"payload":7,"payload":"QUJD"}"#,
        br#"{"fileHash":"a","fileHash":["b"]}"#,
        br#"{"a":{"payload":"x","fileHash":"y"}}"#,
        br#"[{"payload":"x"}]"#,
        br#""payload""#,
        br#"{"payload":{"payload":"x"}}"#,
        br#"{"filePath":"0123456789012345678901234567890123456789012345678901234567890123456789"}"#,
        br#"{}"#,
        br#"  {"a":1}  "#,
        br#"{"a":1} x"#,
        br#"{"a":1,}"#,
        br#"[1,]"#,
        br#"{"a" 1}"#,
        br#"{1:1}"#,
        br#"{"a":tru}"#,
        br#"{"a":truex}"#,
        br#"{"a":nul"#,
        b"",
        b"   ",
        b"\xef\xbb\xbf{}",
    ] {
        agrees(doc, &[]).unwrap();
        agrees(doc, &[1, 5, 9]).unwrap();
    }
}

#[test]
fn raw_value_marker_is_refused() {
    // Where serde_json's `raw_value` feature is on it would parse this member's string as
    // the object itself; no client sends serde_json's private marker, so refuse it.
    let marker = RAW_VALUE_TOKEN;
    let doc = format!(r#"{{"{marker}":"{{}}"}}"#);
    assert!(matches!(
        scan(doc.as_bytes(), &[]),
        Err(ScanError::Syntax { .. })
    ));
    // Only as the first key is it special.
    let doc = format!(r#"{{"a":1,"{marker}":"{{}}"}}"#);
    agrees(doc.as_bytes(), &[]).unwrap();
}

#[test]
fn refusals_say_where_and_why() {
    let err = scan(b"{\"a\":1,}", &[]).unwrap_err();
    match &err {
        ScanError::Syntax { at, .. } => assert_eq!(*at, 7),
        other => panic!("{other:?}"),
    }
    assert!(err.message().starts_with("invalid JSON at byte 7: "));
    let long = format!("[{}]", "1".repeat(MAX_NUMBER + 1));
    let err = scan(long.as_bytes(), &[]).unwrap_err();
    assert_eq!(err.message(), "numeral too long");
}

#[test]
fn a_new_occurrence_restarts_the_stream() {
    let mut sc = JsonScanner::new("payload", FIELDS, 64);
    let mut out = Output::default();
    sc.feed(b"{\"payload\":\"abc\",", &mut out).unwrap();
    assert!(out.restart);
    assert_eq!(out.bytes, b"abc");
    let mut out = Output::default();
    sc.feed(b"\"payload\":\"x", &mut out).unwrap();
    assert!(out.restart);
    assert_eq!(out.bytes, b"x");
    let mut out = Output::default();
    sc.feed(b"y\"}", &mut out).unwrap();
    assert!(!out.restart);
    assert_eq!(out.bytes, b"y");
    assert_eq!(sc.finish().unwrap().streamed, Streamed::Text);
}

#[test]
fn escapes_go_out_byte_by_byte() {
    // A character of each length, and pairs at both ends of their range.
    for (escape, text) in [
        (r"\u0000", "\u{0}"),
        (r"\u007f", "\u{7f}"),
        (r"\u0080", "\u{80}"),
        (r"\u07FF", "\u{7ff}"),
        (r"\u0800", "\u{800}"),
        (r"\u0fff", "\u{fff}"),
        (r"\u1000", "\u{1000}"),
        (r"\ud7ff", "\u{d7ff}"),
        (r"\ue000", "\u{e000}"),
        (r"\uffff", "\u{ffff}"),
        (r"\ud800\udc00", "\u{10000}"),
        (r"\ud83d\ude00", "\u{1f600}"),
        (r"\udbff\udfff", "\u{10ffff}"),
    ] {
        let doc = format!(r#"{{"payload":"{escape}","fileHash":"{escape}"}}"#);
        let every: Vec<usize> = (0..doc.len()).collect();
        let (found, bytes) = scan(doc.as_bytes(), &every).unwrap();
        assert_eq!(bytes, text.as_bytes(), "{escape}");
        assert_eq!(found.captured[0], Member::Text(text.into()), "{escape}");
        agrees(doc.as_bytes(), &every).unwrap();
    }
}

#[test]
fn every_unit_is_unescaped_like_serde_json() {
    for n in 0..=0xFFFFu32 {
        let doc = format!(r#"{{"payload":"\u{n:04x}"}}"#);
        agrees(doc.as_bytes(), &[15]).unwrap();
    }
}

#[test]
fn a_pair_split_over_chunks_adds_no_more_than_its_bytes() {
    let mut sc = JsonScanner::new("payload", FIELDS, 64);
    let mut out = Output::default();
    sc.feed(br#"{"payload":"\ud83d\u"#, &mut out).unwrap();
    assert!(out.restart);
    sc.feed(b"de0", &mut out).unwrap();
    let before = out.bytes.len();
    sc.feed(b"0", &mut out).unwrap();
    assert!(out.bytes.len() <= before + 1);
    sc.feed(br#""}"#, &mut out).unwrap();
    assert!(out.restart);
    assert_eq!(out.bytes, [0xF0, 0x9F, 0x98, 0x80]);
    sc.finish().unwrap();
}

#[test]
fn an_earlier_occurrence_is_cleared_from_the_output() {
    let mut sc = JsonScanner::new("payload", &[], 64);
    let mut out = Output {
        restart: false,
        bytes: b"old".to_vec(),
    };
    sc.feed(b" ", &mut out).unwrap();
    assert!(!out.restart);
    assert_eq!(out.bytes, b"old");
    sc.feed(br#"{"payload":"AB","payload":"CD"}"#, &mut out)
        .unwrap();
    assert!(out.restart);
    assert_eq!(out.bytes, b"CD");
}

/// Documents put together from tokens, sound or not, cut in many places.
#[test]
fn soups_of_tokens_are_taken_like_serde_json_takes_them() {
    const TOKENS: &[&str] = &[
        "{", "}", "[", "]", ":", ",", " ", "\"payload\"", "\"fileHash\"", "\"filePath\"", "\"k\"",
        "\"QUJD\"", "\"a\\/b\"", "\"\\u0041\"", "\"\\ud83d\"", "\"\\ude00\"", "\"", "\\", "true",
        "null", "fals", "-1.5e3", "0", "1e999", "\t\n", "\u{e9}", "x",
    ];
    let mut seed: u64 = 7;
    let mut draw = |bound: usize| {
        seed = seed.wrapping_mul(6364136223846793005).wrapping_add(1442695040888963407);
        (seed >> 33) as usize % bound
    };
    for _ in 0..20_000 {
        let mut doc = String::new();
        for _ in 0..draw(24) {
            doc.push_str(TOKENS[draw(TOKENS.len())]);
        }
        let cuts: Vec<usize> = (0..draw(6)).map(|_| draw(200)).collect();
        agrees(doc.as_bytes(), &cuts).unwrap();
    }
}

//! Framing, envelopes and the reading of messages.

use wispr_flow_helper::json::{put, Json};
use wispr_flow_helper::proto::{ack, encode, encode_body, envelope, error, escape, request, response};
use wispr_flow_helper::proto::{payload, unescape, FrameDecoder, Incoming, Kind, DELIMITER};
use wispr_flow_helper::proto::MAX_BODY_LEN;

#[test]
fn escape_roundtrip() {
    for s in [
        "plain",
        "has|pipe",
        "has+plus",
        "a+b|c",
        "++||",
        "json {\"k\": \"a|b+c\"}",
    ] {
        assert_eq!(unescape(&escape(s)), s, "roundtrip failed for {s:?}");
    }
}

#[test]
fn escaped_body_has_no_literal_delimiter() {
    let e = escape("a|b|c+d");
    assert!(
        !e.contains('|'),
        "escaped body must contain no literal '|': {e}"
    );
}

#[test]
fn decode_two_frames() {
    let f1 = escape(r#"{"HelperAPIRequest":{"IsReady":true,"uuid":"x"}}"#);
    let f2 = escape(r#"{"HelperAPIRequest":{"GetActiveAppInfo":true,"uuid":"y"}}"#);
    let mut d = FrameDecoder::default();
    let mut stream = f1.into_bytes();
    stream.push(DELIMITER);
    stream.extend(f2.into_bytes());
    stream.push(DELIMITER);
    let msgs = d.feed(&stream);
    assert_eq!(msgs.len(), 2);
    let a = Incoming::parse(&msgs[0]).unwrap();
    assert_eq!(a.kind, Kind::Request);
    assert_eq!(a.command, "IsReady");
    assert_eq!(a.uuid, "x");
    let b = Incoming::parse(&msgs[1]).unwrap();
    assert_eq!(b.command, "GetActiveAppInfo");
    assert_eq!(b.uuid, "y");
}

#[test]
fn split_across_feeds() {
    let body = escape(r#"{"HelperAPIRequest":{"IsReady":true,"uuid":"z"}}"#).into_bytes();
    let (a, b) = body.split_at(10);
    let mut d = FrameDecoder::default();
    assert!(d.feed(a).is_empty());
    let mut rest = b.to_vec();
    rest.push(DELIMITER);
    let msgs = d.feed(&rest);
    assert_eq!(msgs.len(), 1);
    assert_eq!(Incoming::parse(&msgs[0]).unwrap().command, "IsReady");
}

#[test]
fn escapes_are_exact() {
    assert_eq!(escape("a+b|c"), "a+1b+2c");
    assert_eq!(escape("+2"), "+12");
    assert_eq!(escape(""), "");
    assert_eq!(unescape("a+1b+2c"), "a+b|c");
    assert_eq!(unescape("+12"), "+2");
    assert_eq!(unescape("+"), "+");
    assert_eq!(unescape("+3"), "+3");
    assert_eq!(unescape("+21"), "|1");
}

#[test]
fn empty_frames_are_passed_over() {
    let mut d = FrameDecoder::default();
    assert_eq!(d.feed(b"|||a||b|"), vec!["a".to_string(), "b".to_string()]);
    assert!(d.feed(b"c").is_empty());
    assert_eq!(d.feed(b"|"), vec!["c".to_string()]);
}

#[test]
fn pieces_of_one_byte_give_the_same_messages() {
    let stream = b"one|t+2w+1o|three|rest";
    let mut whole = FrameDecoder::default();
    let mut pieces = FrameDecoder::default();
    let at_once = whole.feed(stream);
    let mut one_by_one = Vec::new();
    for b in stream {
        one_by_one.extend(pieces.feed(&[*b]));
    }
    assert_eq!(at_once, vec!["one", "t|w+o", "three"]);
    assert_eq!(at_once, one_by_one);
    assert_eq!(whole.feed(b"|"), pieces.feed(b"|"));
}

#[test]
fn bytes_that_are_no_text_become_replacements() {
    let mut d = FrameDecoder::default();
    assert_eq!(d.feed(b"a\xffb|"), vec!["a\u{fffd}b".to_string()]);
    assert_eq!(d.feed("ä→😀|".as_bytes()), vec!["ä→😀".to_string()]);
}

#[test]
fn ack_is_written_with_an_indent() {
    let frame = encode(&ack("u-1")).unwrap();
    let expected = "{\n  \"HelperAPIResponse\": {\n    \"ACK\": true,\n    \"uuid\": \"u-1\"\n  }\n}|";
    assert_eq!(frame, expected.as_bytes());
}

#[test]
fn frames_are_escaped() {
    let frame = encode(&response("Text", Json::text("a|b+c"), "u")).unwrap();
    let text = String::from_utf8(frame).unwrap();
    assert!(text.contains("a+2b+1c"));
    assert_eq!(text.matches('|').count(), 1);
    assert!(text.ends_with('|'));
}

#[test]
fn error_carries_its_description() {
    let v = error("PasteText failed: no", "u-2");
    let inner = v.get("HelperAPIResponse").unwrap();
    let p = inner.get("HelperAPIError").unwrap().get("payload").unwrap();
    assert_eq!(p.text_at("description"), "PasteText failed: no");
    assert_eq!(p.get("type").unwrap().as_text().unwrap(), "");
    assert!(p.get("params").is_some());
    assert_eq!(inner.text_at("uuid"), "u-2");
}

#[test]
fn long_bodies_are_refused() {
    let fits = "x".repeat(MAX_BODY_LEN);
    let frame = encode_body(&fits).unwrap();
    assert_eq!(frame.len(), MAX_BODY_LEN + 1);
    let long = "x".repeat(MAX_BODY_LEN + 1);
    assert_eq!(
        encode_body(&long),
        Err("IPC message too long: 30001 > 30000".to_string())
    );
    // What counts is bytes, before they are escaped.
    assert!(encode_body(&"|".repeat(MAX_BODY_LEN)).is_ok());
    assert!(encode_body(&"ä".repeat(MAX_BODY_LEN)).is_err());
    assert!(encode(&response("Text", Json::text(&long), "u")).is_err());
}

#[test]
fn sent_messages_are_read_in_order() {
    let mut stream = Vec::new();
    for i in 0..3u64 {
        let mut members = Vec::new();
        put(&mut members, "n", Json::unsigned(i));
        put(&mut members, "t", Json::text("a|b+c"));
        let uuid = format!("u-{i}");
        stream.extend(encode(&request("Event", payload(members), &uuid)).unwrap());
    }
    let mut d = FrameDecoder::default();
    let messages = d.feed(&stream);
    assert_eq!(messages.len(), 3);
    for (i, m) in messages.iter().enumerate() {
        let m = Incoming::parse(m).unwrap();
        assert_eq!(m.kind, Kind::Request);
        assert_eq!(m.command, "Event");
        assert_eq!(m.uuid, format!("u-{i}"));
        let p = m.payload.get("payload").unwrap();
        assert_eq!(p.unsigned_at("n"), i as u64);
        assert_eq!(p.text_at("t"), "a|b+c");
    }
    assert!(d.feed(b"").is_empty());
}

#[test]
fn sent_negative_numbers_are_read() {
    let body = Json::parse(r#"{"a":[-1,-9223372036854775808],"b":{"c":-7}}"#).unwrap();
    let frame = encode(&response("Offsets", body, "u")).unwrap();
    let messages = FrameDecoder::default().feed(&frame);
    assert_eq!(messages.len(), 1);
    let m = Incoming::parse(&messages[0]).unwrap();
    assert_eq!(m.kind, Kind::Response);
    assert_eq!(m.command, "Offsets");
    assert_eq!(m.uuid, "u");
    let items = m.payload.get("a").unwrap().as_array().unwrap();
    assert_eq!(items.len(), 2);
    assert_eq!(items[0].as_i64(), Some(-1));
    assert_eq!(items[1].as_i64(), Some(i64::MIN));
    assert_eq!(m.payload.get("b").unwrap().get("c").unwrap().as_i64(), Some(-7));
}

#[test]
fn metadata_names_no_command() {
    let m = Incoming::parse(
        r#"{"HelperAPIRequest":{"sentryBaggage":"b","sentryTrace":"t","uuid":"u","Zed":1}}"#,
    )
    .unwrap();
    assert_eq!(m.command, "Zed");
    assert_eq!(m.payload.as_u64(), Some(1));
}

#[test]
fn first_command_in_order_counts_and_null_does_not() {
    let m = Incoming::parse(r#"{"HelperAPIRequest":{"b":2,"a":null,"c":3}}"#).unwrap();
    assert_eq!(m.command, "b");
    assert_eq!(m.uuid, "");
    let m = Incoming::parse(r#"{"HelperAPIResponse":{"ACK":true,"uuid":7}}"#).unwrap();
    assert_eq!(m.kind, Kind::Response);
    assert_eq!(m.uuid, "");
}

#[test]
fn request_counts_before_response() {
    let m = Incoming::parse(r#"{"HelperAPIResponse":{"R":1},"HelperAPIRequest":{"Q":1}}"#).unwrap();
    assert_eq!(m.kind, Kind::Request);
    assert_eq!(m.command, "Q");
}

#[test]
fn messages_that_are_none_are_refused() {
    let refused = |s: &str| match Incoming::parse(s) {
        Ok(m) => panic!("read {m:?}"),
        Err(e) => e,
    };
    assert_eq!(refused("[]"), "envelope is not an object");
    assert_eq!(
        refused("{}"),
        "envelope has neither HelperAPIRequest nor HelperAPIResponse"
    );
    assert_eq!(refused(r#"{"HelperAPIRequest":5}"#), "inner is not an object");
    assert_eq!(
        refused(r#"{"HelperAPIRequest":{"uuid":"u"}}"#),
        "no command key found in envelope"
    );
    let real = serde_json::from_str::<serde_json::Value>("{").unwrap_err().to_string();
    assert_eq!(refused("{"), real);
}

#[test]
fn envelope_holds_all_members() {
    let mut inner = Vec::new();
    put(&mut inner, "A", Json::Bool(true));
    put(&mut inner, "B", Json::unsigned(2));
    let v = envelope("HelperAPIResponse", inner, "u");
    let inner = v.get("HelperAPIResponse").unwrap();
    assert_eq!(inner.get("A").unwrap().as_bool(), Some(true));
    assert_eq!(inner.get("B").unwrap().as_u64(), Some(2));
    assert_eq!(inner.text_at("uuid"), "u");
}

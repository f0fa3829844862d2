//! The wire codec: envelope encoding, decoding, and the caller-facing
//! outcome split.

use yggdrasilctl::codec::{encode_request, decode_envelope, Request};
use yggdrasilctl::json::Json;
use yggdrasilctl::parse::parse_json;
use yggdrasilctl::ser::to_bytes;
use yggdrasilctl::frame::{FrameReader, FrameStep};
use yggdrasilctl::{Endpoint, RouterVersion};

#[test]
fn simple() {
    // one mocked exchange: encode the request, read back a pretty-printed
    // reply frame, decode it, and take the payload out
    let reply = "{\n  \"status\": \"success\",\n  \"request\": {\n    \"request\": \"test\",\n    \"arguments\": {}\n  },\n  \"response\": {\n    \"mock\": 42\n  }\n}\n";
    let mut e = Endpoint::attach_version((), RouterVersion::v0_5_0__);
    let out = encode_request(Request {
        request: "test".to_string(),
        keepalive: true,
        arguments: Vec::new(),
    });
    assert_eq!(
        out,
        b"{\"request\":\"test\",\"keepalive\":true,\"arguments\":{}}"
    );
    e.feed(reply.as_bytes());
    let frame = match e.next_frame() {
        FrameStep::Ready(f) => f,
        other => panic!("expected a frame, got {:?}", other),
    };
    let envelope = decode_envelope(&frame).expect("well-formed envelope");
    let payload = envelope.into_result().expect("success reply");
    let mock = match payload.get("mock") {
        Some(Json::Num(n)) => n.as_u64().unwrap(),
        other => panic!("unexpected payload member {:?}", other),
    };
    assert_eq!(mock, 42);
}

#[test]
fn error_status_round_trip() {
    // a remote failure surfaces exactly the remote's message
    let env = decode_envelope(b"{\"status\":\"error\",\"error\":\"peer not found\"}").unwrap();
    match env.into_result() {
        Err(m) => assert_eq!(m, "peer not found"),
        Ok(_) => panic!("expected a failure"),
    }

    // and "Unknown" stands in when the remote sent none
    let env = decode_envelope(b"{\"status\":\"error\"}").unwrap();
    match env.into_result() {
        Err(m) => assert_eq!(m, "Unknown"),
        Ok(_) => panic!("expected a failure"),
    }

    // success without a payload is a failure too
    let env = decode_envelope(b"{\"status\":\"success\"}").unwrap();
    match env.into_result() {
        Err(m) => assert_eq!(m, "Unknown"),
        Ok(_) => panic!("expected a failure"),
    }
}

#[test]
fn envelope_strictness() {
    // not an object
    assert!(decode_envelope(b"[1,2]").is_none());
    // missing status
    assert!(decode_envelope(b"{\"response\":{}}").is_none());
    // status of the wrong type
    assert!(decode_envelope(b"{\"status\":3}").is_none());
    // error of the wrong type
    assert!(decode_envelope(b"{\"status\":\"error\",\"error\":5}").is_none());
    // unknown extra members are tolerated
    let env = decode_envelope(b"{\"status\":\"success\",\"extra\":[true],\"response\":{}}").unwrap();
    assert!(env.into_result().is_ok());
    // malformed JSON
    assert!(decode_envelope(b"{\"status\":\"success\"").is_none());
}

#[test]
fn string_escapes_round_trip() {
    let v = parse_json(br#"{"s":"a\"b\\c\/d\n\t\u0041\u00e9\ud83d\ude00"}"#).unwrap();
    let s = match v.get("s") {
        Some(Json::Str(s)) => s.clone(),
        other => panic!("unexpected {:?}", other),
    };
    assert_eq!(s, "a\"b\\c/d\n\tA\u{e9}\u{1f600}");
    // and serializing keeps the value (with its own escaping choices)
    let back = to_bytes(&v);
    let v2 = parse_json(&back).unwrap();
    let s2 = match v2.get("s") {
        Some(Json::Str(s)) => s.clone(),
        other => panic!("unexpected {:?}", other),
    };
    assert_eq!(s2, s);
}

#[test]
fn numbers_as_u64() {
    let v = parse_json(b"{\"a\":18446744073709551615,\"b\":0,\"c\":1.5,\"d\":-3,\"e\":2e3}").unwrap();
    let get = |k: &str| match v.get(k) {
        Some(Json::Num(n)) => n.as_u64(),
        other => panic!("unexpected {:?}", other),
    };
    assert_eq!(get("a"), Some(u64::MAX));
    assert_eq!(get("b"), Some(0));
    assert_eq!(get("c"), None);
    assert_eq!(get("d"), None);
    assert_eq!(get("e"), None);
    // one past u64::MAX no longer reads as an integer
    let v = parse_json(b"{\"a\":18446744073709551616}").unwrap();
    match v.get("a") {
        Some(Json::Num(n)) => assert_eq!(n.as_u64(), None),
        other => panic!("unexpected {:?}", other),
    }
}

#[test]
fn parser_rejects_malformed() {
    assert!(parse_json(b"{\"a\":01}").is_none());
    assert!(parse_json(b"{\"a\":1,}").is_none());
    assert!(parse_json(b"{\"a\" 1}").is_none());
    assert!(parse_json(b"{}extra").is_none());
    assert!(parse_json(b"").is_none());
    assert!(parse_json(b"{\"a\":\x01\"b\"}").is_none());
    assert!(parse_json(b"{\"a\":\"\\ud83d\"}").is_none());
    // raw bytes that are not valid UTF-8 cannot form a string value
    assert!(parse_json(b"{\"a\":\"\xff\xfe\"}").is_none());
    assert!(parse_json("{\"\u{e9}\":1}".as_bytes()).is_some());
}

#[test]
fn duplicate_member_first_occurrence_wins() {
    let env = decode_envelope(b"{\"status\":\"success\",\"status\":\"error\",\"response\":{}}")
        .unwrap();
    assert!(env.into_result().is_ok());
}

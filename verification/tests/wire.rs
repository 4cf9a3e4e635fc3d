//! The JSON reader and writer, command encoding, and the response decoder.

use graphone::json::{parse_json, to_bytes, Json};
use graphone::types::{RpcCommand, RpcImageAttachment, RpcResponse, SessionEventEnvelope};

fn b(s: &str) -> Vec<u8> {
    s.as_bytes().to_vec()
}

fn reser(input: &str) -> Option<String> {
    parse_json(input.as_bytes()).map(|v| String::from_utf8(to_bytes(&v)).unwrap())
}

#[test]
fn parses_scalars() {
    assert_eq!(reser("null").as_deref(), Some("null"));
    assert_eq!(reser("true").as_deref(), Some("true"));
    assert_eq!(reser("false").as_deref(), Some("false"));
    assert_eq!(reser("0").as_deref(), Some("0"));
    assert_eq!(reser("-42").as_deref(), Some("-42"));
    assert_eq!(reser("9223372036854775807").as_deref(), Some("9223372036854775807"));
    assert_eq!(reser("-9223372036854775808").as_deref(), Some("-9223372036854775808"));
    // out of i64 range: kept as its literal text
    assert_eq!(reser("9223372036854775808").as_deref(), Some("9223372036854775808"));
    assert_eq!(reser("1.5e3").as_deref(), Some("1.5e3"));
    assert_eq!(reser("\"hi\"").as_deref(), Some("\"hi\""));
}

#[test]
fn parses_structures_and_whitespace() {
    assert_eq!(
        reser(" { \"a\" : [ 1 , 2 , null ] , \"b\" : { } } ").as_deref(),
        Some("{\"a\":[1,2,null],\"b\":{}}")
    );
    assert_eq!(reser("[]").as_deref(), Some("[]"));
    assert_eq!(reser("{}").as_deref(), Some("{}"));
}

#[test]
fn parses_escapes() {
    assert_eq!(reser("\"a\\nb\"").as_deref(), Some("\"a\\u000ab\""));
    assert_eq!(reser("\"q\\\"q\"").as_deref(), Some("\"q\\\"q\""));
    assert_eq!(reser("\"\\u0041\"").as_deref(), Some("\"A\""));
    // a surrogate pair decodes to one four-byte character
    let v = parse_json(b"\"\\ud83d\\ude00\"").unwrap();
    match &v {
        Json::Str(t) => assert_eq!(t.as_slice(), "\u{1F600}".as_bytes()),
        _ => panic!("expected a string"),
    }
}

#[test]
fn rejects_malformed_documents() {
    for bad in [
        "", "{", "}", "tru", "nul", "{\"a\":}", "[1,]", "{\"a\" 1}", "\"unterminated",
        "01x", "1 2", "{\"a\":1}extra", "\"\\ud83d\"", "\"ctrl\u{0}\"",
    ] {
        assert!(parse_json(bad.as_bytes()).is_none(), "accepted {:?}", bad);
    }
}

#[test]
fn agrees_with_reference_parser_on_documents() {
    // every document our writer emits is valid JSON for serde_json, with
    // the same shape
    let doc = "{\"a\":[1,-2,3.25,\"x\\\"y\",null,true],\"nested\":{\"k\":\"v\"}}";
    let ours = reser(doc).unwrap();
    let theirs: serde_json::Value = serde_json::from_str(&ours).unwrap();
    assert_eq!(theirs["a"][0], serde_json::Value::from(1));
    assert_eq!(theirs["a"][3], serde_json::Value::from("x\"y"));
    assert_eq!(theirs["nested"]["k"], serde_json::Value::from("v"));
}

#[test]
fn command_wire_form_omits_absent_fields() {
    let cmd = RpcCommand::bare(b("ping"));
    assert_eq!(String::from_utf8(cmd.encode()).unwrap(), "{\"type\":\"ping\"}");

    let mut cmd = RpcCommand::bare(b("prompt"));
    cmd.id = Some(b("abc"));
    cmd.session_id = Some(b("s1"));
    cmd.message = Some(b("hi"));
    assert_eq!(
        String::from_utf8(cmd.encode()).unwrap(),
        "{\"id\":\"abc\",\"type\":\"prompt\",\"sessionId\":\"s1\",\"message\":\"hi\"}"
    );
}

#[test]
fn command_round_trips_through_the_wire() {
    let mut cmd = RpcCommand::bare(b("prompt"));
    cmd.id = Some(b("id-1"));
    cmd.session_id = Some(b("s1"));
    cmd.cwd = Some(b("/tmp/w"));
    cmd.message = Some(b("hello \"world\"\n"));
    cmd.provider = Some(b("prov"));
    cmd.model_id = Some(b("m-1"));
    cmd.level = Some(b("high"));
    cmd.images = Some(vec![RpcImageAttachment {
        kind: b("image"),
        data: b("AAAA"),
        mime_type: b("image/png"),
    }]);
    let wire = cmd.encode();
    let parsed = parse_json(&wire).expect("the encoder must emit valid JSON");
    // serde_json agrees field for field
    let sv: serde_json::Value = serde_json::from_slice(&wire).unwrap();
    assert_eq!(sv["id"], serde_json::Value::from("id-1"));
    assert_eq!(sv["type"], serde_json::Value::from("prompt"));
    assert_eq!(sv["sessionId"], serde_json::Value::from("s1"));
    assert_eq!(sv["message"], serde_json::Value::from("hello \"world\"\n"));
    assert_eq!(sv["images"][0]["mimeType"], serde_json::Value::from("image/png"));
    assert!(sv.get("streamingBehavior").is_none());
    // and the populated fields survive our own decode of the parsed value
    let got = parsed.get(b"message").unwrap();
    match got {
        Json::Str(t) => assert_eq!(t.as_slice(), b"hello \"world\"\n"),
        _ => panic!("message must decode as a string"),
    }
}

#[test]
fn response_decodes_strictly() {
    let v = parse_json(
        b"{\"id\":\"abc\",\"type\":\"response\",\"command\":\"ping\",\"success\":true}",
    )
    .unwrap();
    let r = RpcResponse::decode(&v).unwrap();
    assert_eq!(r.id.as_deref(), Some(b"abc".as_slice()));
    assert_eq!(r.command, b("ping"));
    assert!(r.success);
    assert!(r.data.is_none());
    assert!(r.error.is_none());

    // missing `success` fails the decode
    let v = parse_json(b"{\"type\":\"response\",\"command\":\"ping\"}").unwrap();
    assert!(RpcResponse::decode(&v).is_none());
    // a non-string id fails the decode
    let v = parse_json(
        b"{\"id\":7,\"type\":\"response\",\"command\":\"ping\",\"success\":true}",
    )
    .unwrap();
    assert!(RpcResponse::decode(&v).is_none());
}

#[test]
fn session_event_envelope_decodes_strictly() {
    let v = parse_json(
        b"{\"type\":\"session_event\",\"sessionId\":\"s1\",\"event\":{\"type\":\"turn_start\"}}",
    )
    .unwrap();
    let env = SessionEventEnvelope::decode(&v).unwrap();
    assert_eq!(env.session_id, b("s1"));
    // a missing event fails
    let v = parse_json(b"{\"type\":\"session_event\",\"sessionId\":\"s1\"}").unwrap();
    assert!(SessionEventEnvelope::decode(&v).is_none());
}

//! The frame reader, the sanitizer, the router, the coalescer and the
//! broker, exercised the way the output loop drives them.

use graphone::broker::{finish_request, PendingTable, SendOutcome, WaitEvent};
use graphone::coalesce::SessionDeltaCoalescer;
use graphone::handler::EventHandler;
use graphone::json::{parse_json, to_bytes, Json};
use graphone::router::{emit_session_event, handle_session_event, route_unit, EmitDecision,
    RouteAction};
use graphone::types::SessionEventEnvelope;

fn b(s: &str) -> Vec<u8> {
    s.as_bytes().to_vec()
}

#[test]
fn extract_lines_reassembles_split_chunks() {
    let mut buffer: Vec<u8> = Vec::new();
    // one line split mid-codepoint: é is 0xC3 0xA9
    let all = "{\"a\":\"é\"}\n{\"b\":1}\r\n".as_bytes();
    let (c1, c2) = all.split_at(8);
    let mut lines = EventHandler::extract_lines(c1, &mut buffer);
    lines.extend(EventHandler::extract_lines(c2, &mut buffer));
    assert_eq!(lines.len(), 2);
    assert_eq!(lines[0], "{\"a\":\"é\"}".as_bytes());
    assert_eq!(lines[1], b("{\"b\":1}"));
    assert!(buffer.is_empty());
}

#[test]
fn extract_lines_is_split_invariant() {
    let stream = "first\nsecond line\r\npart".as_bytes();
    let whole = {
        let mut buffer = Vec::new();
        let mut lines = EventHandler::extract_lines(stream, &mut buffer);
        if let Some(rest) = Some(EventHandler::flush_buffer(&mut buffer)) {
            if !rest.is_empty() {
                lines.push(rest);
            }
        }
        lines
    };
    // every split point gives the same units
    for cut in 0..stream.len() {
        let mut buffer = Vec::new();
        let mut lines = EventHandler::extract_lines(&stream[..cut], &mut buffer);
        lines.extend(EventHandler::extract_lines(&stream[cut..], &mut buffer));
        let rest = EventHandler::flush_buffer(&mut buffer);
        if !rest.is_empty() {
            lines.push(rest);
        }
        assert_eq!(lines, whole, "split at {cut} changed the units");
    }
}

#[test]
fn sanitize_strips_ansi_and_bom() {
    let line = b"\xef\xbb\xbf\x1b[32m{\"ok\":true}\x1b[0m\0";
    let clean = EventHandler::sanitize_json_line(line);
    assert_eq!(clean, b("{\"ok\":true}"));
    // OSC sequence terminated by BEL
    let line = b"\x1b]0;title\x07{\"a\":1}";
    assert_eq!(EventHandler::sanitize_json_line(line), b("{\"a\":1}"));
    // noise around the outer object is cut away
    let line = b"log: {\"a\":1} trailing";
    assert_eq!(EventHandler::sanitize_json_line(line), b("{\"a\":1}"));
}

#[test]
fn truncate_counts_characters_not_bytes() {
    let t = EventHandler::truncate_string("abcdef".as_bytes(), 3);
    assert_eq!(t, "abc\u{2026}".as_bytes());
    let t = EventHandler::truncate_string("ééé".as_bytes(), 2);
    assert_eq!(t, "éé\u{2026}".as_bytes());
    let t = EventHandler::truncate_string("ab".as_bytes(), 5);
    assert_eq!(t, b("ab"));
}

#[test]
fn router_classifies_units() {
    match route_unit(b"  \t ") {
        RouteAction::Blank => {}
        _ => panic!("blank line must be dropped"),
    }
    match route_unit(b"not json at all") {
        RouteAction::Unparsable(_) => {}
        _ => panic!("non-JSON must be logged and dropped"),
    }
    match route_unit(
        b"{\"id\":\"abc\",\"type\":\"response\",\"command\":\"ping\",\"success\":true}",
    ) {
        RouteAction::DeliverResponse(id, resp) => {
            assert_eq!(id, b("abc"));
            assert!(resp.success);
        }
        _ => panic!("a well-formed response must reach the broker"),
    }
    match route_unit(b"{\"type\":\"response\",\"command\":\"ping\"}") {
        RouteAction::MalformedResponse(cmd) => assert_eq!(cmd, b("ping")),
        _ => panic!("a malformed response must never be forwarded"),
    }
    match route_unit(
        b"{\"type\":\"session_event\",\"sessionId\":\"s1\",\"event\":{\"type\":\"turn_end\"}}",
    ) {
        RouteAction::SessionEvent(env) => assert_eq!(env.session_id, b("s1")),
        _ => panic!("a session event must reach the compactor"),
    }
    match route_unit(b"{\"type\":\"status\",\"detail\":\"fine\"}") {
        RouteAction::EmitRaw(raw, log) => {
            assert_eq!(raw, b("{\"type\":\"status\",\"detail\":\"fine\"}"));
            assert!(log);
        }
        _ => panic!("unclassified units are forwarded verbatim"),
    }
}

#[test]
fn router_drops_oversized_unclassified_units() {
    let mut line = b("{\"type\":\"big\",\"data\":\"");
    line.extend(std::iter::repeat(b'x').take(70_000));
    line.extend_from_slice(b"\"}");
    match route_unit(&line) {
        RouteAction::Oversized(n) => assert!(n > 60_000),
        _ => panic!("oversized unclassified payloads are dropped"),
    }
}

fn delta_event(kind: &str, index: i64, fragment: &str) -> Json {
    let text = format!(
        "{{\"type\":\"message_update\",\"assistantMessageEvent\":{{\"type\":\"{kind}\",\"contentIndex\":{index},\"delta\":\"{fragment}\"}}}}"
    );
    parse_json(text.as_bytes()).unwrap()
}

#[test]
fn coalescer_merges_same_slot_deltas() {
    // the two-delta scenario: "He" then "llo" merge into "Hello"
    let mut coal = SessionDeltaCoalescer::new(16, 0);
    assert!(coal.maybe_queue_delta(b"s1", delta_event("text_delta", 0, "He")));
    assert!(coal.maybe_queue_delta(b"s1", delta_event("text_delta", 0, "llo")));
    // before the interval nothing is due
    assert!(coal.flush_due(10).is_none());
    // after the interval one merged event comes out
    let batches = coal.flush_due(16).expect("the interval has elapsed");
    assert_eq!(batches.len(), 1);
    let (sid, events) = &batches[0];
    assert_eq!(sid, &b("s1"));
    assert_eq!(events.len(), 1);
    let wire = String::from_utf8(to_bytes(&events[0])).unwrap();
    assert!(wire.contains("\"delta\":\"Hello\""), "got {wire}");
    assert!(wire.contains("\"contentIndex\":0"));
}

#[test]
fn coalescer_keeps_slot_boundaries() {
    let mut coal = SessionDeltaCoalescer::new(16, 0);
    assert!(coal.maybe_queue_delta(b"s1", delta_event("text_delta", 0, "a")));
    // another slot starts a new buffered entry
    assert!(coal.maybe_queue_delta(b"s1", delta_event("text_delta", 1, "b")));
    // another kind too
    assert!(coal.maybe_queue_delta(b"s1", delta_event("thinking_delta", 1, "c")));
    let batches = coal.flush_due(100).unwrap();
    assert_eq!(batches[0].1.len(), 3);
}

#[test]
fn session_event_flushes_buffered_deltas_first() {
    let mut coal = SessionDeltaCoalescer::new(1_000_000, 0);
    let env = SessionEventEnvelope {
        kind: b("session_event"),
        session_id: b("s1"),
        event: delta_event("text_delta", 0, "He"),
    };
    assert!(handle_session_event(&mut coal, &env, 1).is_empty());
    let env2 = SessionEventEnvelope {
        kind: b("session_event"),
        session_id: b("s1"),
        event: parse_json(b"{\"type\":\"turn_end\"}").unwrap(),
    };
    let out = handle_session_event(&mut coal, &env2, 2);
    // the buffered delta comes first, then the non-delta event: worker
    // emission order survives
    assert_eq!(out.len(), 1);
    let (sid, events) = &out[0];
    assert_eq!(sid, &b("s1"));
    assert_eq!(events.len(), 2);
    let first = String::from_utf8(to_bytes(&events[0])).unwrap();
    let second = String::from_utf8(to_bytes(&events[1])).unwrap();
    assert!(first.contains("text_delta"));
    assert_eq!(second, "{\"type\":\"turn_end\"}");
}

#[test]
fn emit_caps_payload_size() {
    let ev = parse_json(b"{\"type\":\"turn_end\"}").unwrap();
    match emit_session_event(b"s1", &ev) {
        EmitDecision::Emit(payload, log) => {
            assert_eq!(
                String::from_utf8(payload).unwrap(),
                "{\"sessionId\":\"s1\",\"event\":{\"type\":\"turn_end\"}}"
            );
            assert!(log);
        }
        _ => panic!("a small event is emitted"),
    }
}

#[test]
fn waiter_table_resolves_each_id_once() {
    let mut table: PendingTable<u32> = PendingTable::new();
    assert!(table.insert_waiter(b"abc", 1).is_none());
    assert!(table.insert_waiter(b"def", 2).is_none());
    assert_eq!(table.take_waiter(b"abc"), Some(1));
    // the late response for "abc" finds no waiter and changes nothing
    assert_eq!(table.take_waiter(b"abc"), None);
    assert_eq!(table.len(), 1);
    assert_eq!(table.take_waiter(b"def"), Some(2));
    assert_eq!(table.len(), 0);
}

#[test]
fn every_request_path_settles_exactly_once() {
    for ev in [
        WaitEvent::WriteFailed(b("broken pipe")),
        WaitEvent::Closed,
        WaitEvent::TimedOut,
    ] {
        let mut table: PendingTable<u32> = PendingTable::new();
        table.insert_waiter(b"id-1", 7);
        let outcome = finish_request(&mut table, b"id-1", ev);
        match outcome {
            SendOutcome::Response(_) => panic!("no response arrived"),
            SendOutcome::WriteError(_) | SendOutcome::ChannelClosed | SendOutcome::TimedOut => {}
        }
        // the waiter is gone on every path: nothing leaks
        assert_eq!(table.len(), 0);
        assert_eq!(table.take_waiter(b"id-1"), None);
    }
}

//! Settings, supervision, retry rules, identifiers, compaction and
//! clipboard helpers.

use graphone::compact::{compact_available_models, compact_json_value, compact_session_event_for_frontend};
use graphone::json::{parse_json, to_bytes};
use graphone::media::{attachment_from_clipboard, normalize_image_mime_type,
    pick_preferred_image_mime_type};
use graphone::retry::{is_timeout_error, CreateSessionRetry, ProbeDecision, ReadinessProbe};
use graphone::settings::{SettingsScope, SettingsStore};
use graphone::supervisor::{extract_sidecar_binary, needs_refresh, prepare_runtime_plan,
    RuntimePlan, SidecarManager, SourceStamp, StartGate};
use graphone::session_cache::SessionCache;
use graphone::settings::parse_scope;
use graphone::types::RpcResponse;
use graphone::utils::{crypto_random_uuid, require_session_id};
use std::io::Write;

fn b(s: &str) -> Vec<u8> {
    s.as_bytes().to_vec()
}

#[test]
fn enabled_models_round_trip_through_the_store() {
    // no settings file: unrestricted, from nowhere
    let mut store = SettingsStore { project: None, global: None };
    let r = store.get_enabled_models();
    assert!(!r.defined);
    assert!(r.patterns.is_empty());
    assert_eq!(r.source, b("none"));

    // after writing to the project scope, the project answer wins
    store.set_enabled_models(&vec![b("gpt-*")], SettingsScope::Project);
    let r = store.get_enabled_models();
    assert!(r.defined);
    assert_eq!(r.patterns, vec![b("gpt-*")]);
    assert_eq!(r.source, b("project"));
}

#[test]
fn settings_writes_merge_non_destructively() {
    let mut store = SettingsStore {
        project: None,
        global: Some(b("{\"theme\":\"dark\",\"enabledModels\":[\"old\"]}")),
    };
    store.set_enabled_models(&vec![b("beta-*"), b("gpt-*")], SettingsScope::Global);
    let written = String::from_utf8(store.global.clone().unwrap()).unwrap();
    // the unrelated key survives and the recognized key is replaced
    assert_eq!(
        written,
        "{\"theme\":\"dark\",\"enabledModels\":[\"beta-*\",\"gpt-*\"]}\n"
    );
    let r = store.get_enabled_models();
    assert_eq!(r.patterns, vec![b("beta-*"), b("gpt-*")]);
    assert_eq!(r.source, b("global"));
}

#[test]
fn settings_reads_tolerate_damage() {
    // explicit null: defined, no scoping
    let store = SettingsStore { project: Some(b("{\"enabledModels\":null}")), global: None };
    let r = store.get_enabled_models();
    assert!(r.defined);
    assert!(r.patterns.is_empty());
    assert_eq!(r.source, b("project"));
    // wrong shape: not defined
    let store = SettingsStore { project: Some(b("{\"enabledModels\":7}")), global: None };
    assert!(!store.get_enabled_models().defined);
    // unparsable: not defined
    let store = SettingsStore { project: Some(b("not json")), global: None };
    assert!(!store.get_enabled_models().defined);
}

#[test]
fn sidecar_args_follow_the_overrides() {
    let args = SidecarManager::build_sidecar_command(None, None);
    assert_eq!(args, vec![b("--mode"), b("rpc"), b("--no-session"), b("--no-skills")]);
    let p = b("anthropic");
    let m = b("m1");
    let args = SidecarManager::build_sidecar_command(Some(&p), Some(&m));
    assert_eq!(
        args,
        vec![
            b("--mode"),
            b("rpc"),
            b("--no-session"),
            b("--no-skills"),
            b("--provider"),
            b("anthropic"),
            b("--model"),
            b("m1"),
        ]
    );
}

#[test]
fn start_gate_spawns_exactly_once() {
    let mut gate = StartGate::new();
    let first = gate.begin_start();
    let second = gate.begin_start();
    assert!(first, "the first start call spawns");
    assert!(!second, "the second start call sees the child and spawns nothing");
    gate.mark_stopped();
    assert!(gate.begin_start(), "after a stop, a new start spawns again");
}

#[test]
fn stale_runtime_is_refreshed() {
    let stamp = SourceStamp { len: 1234, modified_secs: 99 };
    assert_eq!(stamp.encode(), b("1234:99"));
    assert!(needs_refresh(None, &stamp, true));
    assert!(needs_refresh(Some(b"1234:98"), &stamp, true));
    assert!(needs_refresh(Some(b"1234:99"), &stamp, false));
    assert!(!needs_refresh(Some(b"1234:99\n"), &stamp, true));
    // a matching stamp but a corrupt binary still refreshes
    match prepare_runtime_plan(Some(b"1234:99"), &stamp, true, b"#!sh") {
        RuntimePlan::Refresh => {}
        _ => panic!("a failed validation must refresh"),
    }
    match prepare_runtime_plan(Some(b"1234:99"), &stamp, true, b"\x7fELF...") {
        RuntimePlan::UseExisting => {}
        _ => panic!("a current, valid runtime is kept"),
    }
}

#[test]
fn extraction_validates_the_signature() {
    let payload = b"\x7fELF\x02\x01\x01rest-of-binary";
    let mut enc = flate2::write::GzEncoder::new(Vec::new(), flate2::Compression::default());
    enc.write_all(payload).unwrap();
    let archive = enc.finish().unwrap();
    let bin = extract_sidecar_binary(&archive).expect("a valid archive extracts");
    assert_eq!(bin, payload.to_vec());

    // a non-ELF payload is refused after extraction
    let mut enc = flate2::write::GzEncoder::new(Vec::new(), flate2::Compression::default());
    enc.write_all(b"#!/bin/sh\necho no\n").unwrap();
    let archive = enc.finish().unwrap();
    assert!(extract_sidecar_binary(&archive).is_none());

    // garbage is no archive at all
    assert!(extract_sidecar_binary(b"not gzip").is_none());
}

#[test]
fn readiness_fails_after_three_attempts() {
    // the ping scenario with no live worker: three failures, two fixed
    // backoffs, then a readiness error
    let mut probe = ReadinessProbe::new();
    let e = b("Agent session not started");
    match probe.on_attempt(false, e.clone()) {
        ProbeDecision::RetryAfterMs(ms) => assert_eq!(ms, 500),
        _ => panic!("first failure retries"),
    }
    match probe.on_attempt(false, e.clone()) {
        ProbeDecision::RetryAfterMs(ms) => assert_eq!(ms, 500),
        _ => panic!("second failure retries"),
    }
    match probe.on_attempt(false, e.clone()) {
        ProbeDecision::Failed(err) => assert_eq!(err, e),
        _ => panic!("the third failure is fatal to this start call"),
    }
}

#[test]
fn readiness_success_short_circuits() {
    let mut probe = ReadinessProbe::new();
    match probe.on_attempt(true, Vec::new()) {
        ProbeDecision::Ready => {}
        _ => panic!("any success short-circuits"),
    }
}

#[test]
fn session_creation_retries_only_on_timeouts() {
    assert!(is_timeout_error(b"Timeout waiting for response"));
    assert!(!is_timeout_error(b"Failed to write to sidecar: broken pipe"));

    let mut retry = CreateSessionRetry::new(b("sess-1"));
    match retry.on_error(b"Timeout waiting for response") {
        ProbeDecision::RetryAfterMs(ms) => assert_eq!(ms, 600),
        _ => panic!("a timeout retries"),
    }
    // the same client-generated session id is reused
    assert_eq!(retry.session_id, b("sess-1"));
    match retry.on_error(b"Failed to write to sidecar") {
        ProbeDecision::Failed(e) => assert_eq!(e, b("Failed to write to sidecar")),
        _ => panic!("a non-timeout failure propagates at once"),
    }
}

#[test]
fn identifiers_have_the_uuid_shape() {
    assert_eq!(crypto_random_uuid(0), b("00000000-0000-0000-0000-000000000000"));
    assert_eq!(crypto_random_uuid(1), b("00000000-0000-0000-0001-000000000001"));
    assert_eq!(
        crypto_random_uuid(0x1234_5678_9abc_def0),
        b("12345678-9abc-bcde-def0-56789abcdef0")
    );
    assert_ne!(crypto_random_uuid(2), crypto_random_uuid(3));
}

#[test]
fn session_ids_are_required_and_trimmed() {
    assert_eq!(require_session_id(b"  s1 ", b"prompt"), Ok(b("s1")));
    assert_eq!(
        require_session_id(b"   ", b"prompt"),
        Err(b("sessionId is required for prompt"))
    );
}

#[test]
fn mime_types_normalize_and_rank() {
    assert_eq!(normalize_image_mime_type(b"IMAGE/PNG; q=1"), b("image/png"));
    assert_eq!(normalize_image_mime_type(b"  text/plain  "), b("text/plain"));
    let offered = vec![b("text/plain"), b("image/webp"), b("IMAGE/PNG")];
    assert_eq!(pick_preferred_image_mime_type(&offered), Some(b("IMAGE/PNG")));
    let offered = vec![b("text/plain"), b("image/tiff")];
    assert_eq!(pick_preferred_image_mime_type(&offered), Some(b("image/tiff")));
    let offered = vec![b("text/plain")];
    assert_eq!(pick_preferred_image_mime_type(&offered), None);
}

#[test]
fn clipboard_attachment_encodes_base64() {
    let att = attachment_from_clipboard(b"image/PNG", b"hello");
    assert_eq!(att.kind, b("image"));
    assert_eq!(att.mime_type, b("image/png"));
    // the engine's output, not the input handed back
    assert_eq!(att.data, b("aGVsbG8="));
    let empty = attachment_from_clipboard(b"image/png", b"");
    assert_eq!(empty.data, b(""));
}

#[test]
fn compaction_bounds_strings_arrays_and_depth() {
    // strings cut at 1024 characters with the ellipsis marker
    let long = format!("\"{}\"", "x".repeat(2000));
    let v = parse_json(long.as_bytes()).unwrap();
    let c = compact_json_value(&v, 0);
    let out = to_bytes(&c);
    assert_eq!(out.len(), 1 + 1024 + 3 + 1);

    // arrays cut at 16 items with a count marker
    let arr = format!("[{}]", (0..20).map(|i| i.to_string()).collect::<Vec<_>>().join(","));
    let v = parse_json(arr.as_bytes()).unwrap();
    let c = compact_json_value(&v, 0);
    let out = String::from_utf8(to_bytes(&c)).unwrap();
    assert!(out.contains("\"_truncatedArrayItems\":4"), "got {out}");

    // depth capped at two with a count-only placeholder
    let v = parse_json(b"{\"a\":{\"b\":{\"c\":1,\"d\":2}}}").unwrap();
    let c = compact_json_value(&v, 0);
    let out = String::from_utf8(to_bytes(&c)).unwrap();
    assert_eq!(out, "{\"a\":{\"b\":{\"_truncatedObjectKeys\":2}}}");
}

#[test]
fn session_events_compact_to_what_the_ui_renders() {
    // lifecycle markers become bare tags
    let v = parse_json(b"{\"type\":\"agent_start\",\"noise\":true}").unwrap();
    let c = compact_session_event_for_frontend(&v);
    assert_eq!(String::from_utf8(to_bytes(&c)).unwrap(), "{\"type\":\"agent_start\"}");

    // message_update drops the bulky partial snapshot, keeps the delta
    let v = parse_json(
        b"{\"type\":\"message_update\",\"message\":{\"role\":\"assistant\",\"junk\":1},\"assistantMessageEvent\":{\"type\":\"text_delta\",\"contentIndex\":0,\"delta\":\"He\",\"partial\":{\"content\":[]}}}",
    )
    .unwrap();
    let c = compact_session_event_for_frontend(&v);
    let out = String::from_utf8(to_bytes(&c)).unwrap();
    assert_eq!(
        out,
        "{\"type\":\"message_update\",\"message\":{\"role\":\"assistant\"},\"assistantMessageEvent\":{\"type\":\"text_delta\",\"contentIndex\":0,\"delta\":\"He\"}}"
    );

    // an index-based tool call reference is resolved before the snapshot goes
    let v = parse_json(
        b"{\"type\":\"message_update\",\"assistantMessageEvent\":{\"type\":\"toolcall_start\",\"contentIndex\":0,\"partial\":{\"content\":[{\"type\":\"toolCall\",\"id\":\"t1\",\"name\":\"bash\",\"arguments\":{\"cmd\":\"ls\"}}]}}}",
    )
    .unwrap();
    let c = compact_session_event_for_frontend(&v);
    let out = String::from_utf8(to_bytes(&c)).unwrap();
    assert!(out.contains("\"toolCall\":{\"type\":\"toolCall\",\"id\":\"t1\",\"name\":\"bash\""), "got {out}");
    assert!(!out.contains("partial"));

    // message_end keeps role, stop reason and error message only
    let v = parse_json(
        b"{\"type\":\"message_end\",\"message\":{\"role\":\"assistant\",\"stopReason\":\"done\",\"content\":[1,2,3]}}",
    )
    .unwrap();
    let c = compact_session_event_for_frontend(&v);
    assert_eq!(
        String::from_utf8(to_bytes(&c)).unwrap(),
        "{\"type\":\"message_end\",\"message\":{\"role\":\"assistant\",\"stopReason\":\"done\"}}"
    );

    // tool execution end truncates huge results
    let big = format!(
        "{{\"type\":\"tool_execution_end\",\"toolCallId\":\"t\",\"toolName\":\"bash\",\"result\":\"{}\"}}",
        "y".repeat(30_000)
    );
    let v = parse_json(big.as_bytes()).unwrap();
    let c = compact_session_event_for_frontend(&v);
    let out = to_bytes(&c);
    assert!(out.len() < 25_000);
}

#[test]
fn session_cache_updates_from_trusted_shapes_only() {
    let mut cache = SessionCache::new();

    // a successful create response with both fields caches one entry
    let v = parse_json(
        b"{\"id\":\"1\",\"type\":\"response\",\"command\":\"create_session\",\"success\":true,\"data\":{\"sessionId\":\"s1\",\"cwd\":\"/w1\"}}",
    )
    .unwrap();
    cache.apply_create_response(&RpcResponse::decode(&v).unwrap());
    assert_eq!(cache.lookup(b"s1").map(|c| c.clone()), Some(b("/w1")));

    // a failed response changes nothing
    let v = parse_json(
        b"{\"type\":\"response\",\"command\":\"create_session\",\"success\":false,\"data\":{\"sessionId\":\"s2\",\"cwd\":\"/w2\"}}",
    )
    .unwrap();
    cache.apply_create_response(&RpcResponse::decode(&v).unwrap());
    assert!(cache.lookup(b"s2").is_none());

    // a response missing the cwd changes nothing
    let v = parse_json(
        b"{\"type\":\"response\",\"command\":\"create_session\",\"success\":true,\"data\":{\"sessionId\":\"s3\"}}",
    )
    .unwrap();
    cache.apply_create_response(&RpcResponse::decode(&v).unwrap());
    assert!(cache.lookup(b"s3").is_none());
    assert_eq!(cache.len(), 1);

    // a successful list response replaces the whole cache, skipping
    // malformed entries
    let v = parse_json(
        b"{\"type\":\"response\",\"command\":\"list_sessions\",\"success\":true,\"data\":{\"sessions\":[{\"sessionId\":\"a\",\"cwd\":\"/wa\"},{\"sessionId\":\"bad\"},{\"sessionId\":\"b\",\"cwd\":\"/wb\"}]}}",
    )
    .unwrap();
    cache.apply_list_response(&RpcResponse::decode(&v).unwrap());
    assert_eq!(cache.len(), 2);
    assert!(cache.lookup(b"s1").is_none());
    assert_eq!(cache.lookup(b"a").map(|c| c.clone()), Some(b("/wa")));
    assert_eq!(cache.lookup(b"b").map(|c| c.clone()), Some(b("/wb")));

    // a successful close evicts exactly its entry
    cache.evict(b"a");
    assert!(cache.lookup(b"a").is_none());
    assert_eq!(cache.lookup(b"b").map(|c| c.clone()), Some(b("/wb")));
}

#[test]
fn available_models_normalize_for_the_ui() {
    let data = parse_json(
        b"{\"models\":[{\"provider\":\"p1\",\"id\":\"m1\",\"name\":\"First\",\"supportsImageInput\":true,\"junk\":[1,2]},{\"provider\":\"p2\",\"id\":\"m2\"},{\"id\":\"no-provider\"}]}",
    )
    .unwrap();
    let c = compact_available_models(&data);
    assert_eq!(
        String::from_utf8(to_bytes(&c)).unwrap(),
        "{\"models\":[{\"provider\":\"p1\",\"id\":\"m1\",\"name\":\"First\",\"supportsImageInput\":true},{\"provider\":\"p2\",\"id\":\"m2\",\"name\":\"m2\",\"supportsImageInput\":false}]}"
    );
    // no models array reads as none
    let data = parse_json(b"{\"other\":1}").unwrap();
    let c = compact_available_models(&data);
    assert_eq!(String::from_utf8(to_bytes(&c)).unwrap(), "{\"models\":[]}");
}

#[test]
fn unknown_session_events_are_bounded() {
    // an unknown event type still goes through the generic bounding pass
    let v = parse_json(b"{\"type\":\"custom\",\"deep\":{\"a\":{\"b\":{\"c\":1}}}}").unwrap();
    let c = compact_session_event_for_frontend(&v);
    let out = String::from_utf8(to_bytes(&c)).unwrap();
    assert_eq!(out, "{\"type\":\"custom\",\"deep\":{\"a\":{\"_truncatedObjectKeys\":1}}}");
}

#[test]
fn scope_words_are_validated() {
    assert!(matches!(parse_scope(None), Ok(SettingsScope::Auto)));
    assert!(matches!(parse_scope(Some(b"auto")), Ok(SettingsScope::Auto)));
    assert!(matches!(parse_scope(Some(b"project")), Ok(SettingsScope::Project)));
    assert!(matches!(parse_scope(Some(b"global")), Ok(SettingsScope::Global)));
    match parse_scope(Some(b"everywhere")) {
        Err(msg) => assert_eq!(
            String::from_utf8(msg).unwrap(),
            "Invalid scope 'everywhere'. Expected 'auto', 'project', or 'global'"
        ),
        Ok(_) => panic!("an unknown scope must be refused"),
    }
}

//! Classification of sanitized output units, and the ordering rules that
//! connect the router, the compactor and the coalescer.
//!
//! A unit that claims to be a response is decoded strictly: on failure it
//! is logged and dropped, never forwarded; with an id it goes to the
//! broker, without one it is discarded. A session event is decoded
//! strictly, compacted, and either buffered (a delta) or emitted after its
//! session's buffer (anything else). Any other unit is forwarded verbatim
//! to the UI, subject to a payload cap; oversized payloads are logged and
//! dropped.

use vstd::prelude::*;

use crate::coalesce::{SessionDeltaCoalescer, delta_key, assoc_queue, assoc_get, assoc_remove};
use crate::compact::sp_compact_session_event;
use crate::handler::{EventHandler, sp_sanitize, sp_trim};
use crate::json::{Json, JsonV, jget, jview_seq, sp_parse, sp_ser, lemma_jview_pairs,
    jview_pairs, push_pair};
use crate::types::{RpcResponse, SessionEventEnvelope, resp_of_json, env_of_json, key_type,
    key_command, key_session_id, key_event};

verus! {

broadcast use vstd::seq::group_seq_axioms;

/// The envelope discriminator of a parsed unit, when it is a string.
pub open spec fn unit_type(v: JsonV) -> Option<Seq<u8>> {
    match jget(v, key_type()) {
        Some(JsonV::Str(t)) => Some(t),
        _ => None,
    }
}

pub open spec fn tag_response() -> Seq<u8> {
    // response
    seq![0x72, 0x65, 0x73, 0x70, 0x6f, 0x6e, 0x73, 0x65]
}

pub open spec fn tag_session_event() -> Seq<u8> {
    // session_event
    seq![
        0x73, 0x65, 0x73, 0x73, 0x69, 0x6f, 0x6e, 0x5f, 0x65, 0x76, 0x65, 0x6e, 0x74,
    ]
}

/// The command a malformed response claimed to answer, for the log.
pub open spec fn claimed_command(v: JsonV) -> Seq<u8> {
    match jget(v, key_command()) {
        Some(JsonV::Str(c)) => c,
        // unknown
        _ => seq![0x75, 0x6e, 0x6b, 0x6e, 0x6f, 0x77, 0x6e],
    }
}

/// What the router decides for one raw line.
pub enum RouteAction {
    /// Nothing but whitespace: dropped without a word.
    Blank,
    /// Not a JSON document even after sanitizing: logged (with a bounded
    /// preview of the sanitized unit) and dropped.
    Unparsable(Vec<u8>),
    /// A well-formed response carrying an id: handed to the broker.
    DeliverResponse(Vec<u8>, RpcResponse),
    /// A well-formed response with no id: logged and discarded.
    AnonymousResponse,
    /// A unit claiming to be a response that fails the strict decode:
    /// logged with the command it claimed, and dropped — never forwarded.
    MalformedResponse(Vec<u8>),
    /// A well-formed session event: for the compactor and coalescer.
    SessionEvent(SessionEventEnvelope),
    /// A unit claiming to be a session event that fails the strict decode:
    /// logged and dropped.
    MalformedSessionEvent,
    /// Anything else: forwarded verbatim to the UI (`log` says whether it
    /// is also worth a log line — high-frequency updates are not).
    EmitRaw(Vec<u8>, bool),
    /// An unclassified unit too large to forward: logged and dropped.
    Oversized(usize),
}

/// The UI payload cap, guarding against webview transport truncation.
pub open spec fn max_event_bytes() -> nat {
    60000
}

/// Classifies one raw stdout line. The unit is sanitized first; every case
/// of the result states exactly which lines reach it.
pub fn route_unit(line: &[u8]) -> (r: RouteAction)
    ensures
        ({
            let san = sp_sanitize(line@);
            match r {
                RouteAction::Blank => sp_trim(san).len() == 0,
                RouteAction::Unparsable(preview) => {
                    &&& sp_trim(san).len() != 0
                    &&& sp_parse(san) is None
                    &&& preview@ == san
                },
                RouteAction::DeliverResponse(id, resp) => {
                    &&& sp_trim(san).len() != 0
                    &&& sp_parse(san) matches Some(v) && unit_type(v) == Some(tag_response())
                        && resp_of_json(v) == Some(resp@)
                    &&& resp@.id == Some(id@)
                },
                RouteAction::AnonymousResponse => {
                    &&& sp_trim(san).len() != 0
                    &&& sp_parse(san) matches Some(v) && unit_type(v) == Some(tag_response())
                        && (resp_of_json(v) matches Some(rv) && rv.id is None)
                },
                RouteAction::MalformedResponse(cmd) => {
                    &&& sp_trim(san).len() != 0
                    &&& sp_parse(san) matches Some(v) && unit_type(v) == Some(tag_response())
                        && resp_of_json(v) is None && cmd@ == claimed_command(v)
                },
                RouteAction::SessionEvent(env) => {
                    &&& sp_trim(san).len() != 0
                    &&& sp_parse(san) matches Some(v) && unit_type(v) == Some(
                        tag_session_event(),
                    ) && env_of_json(v) == Some(env@)
                },
                RouteAction::MalformedSessionEvent => {
                    &&& sp_trim(san).len() != 0
                    &&& sp_parse(san) matches Some(v) && unit_type(v) == Some(
                        tag_session_event(),
                    ) && env_of_json(v) is None
                },
                RouteAction::EmitRaw(raw, log) => {
                    &&& sp_trim(san).len() != 0
                    &&& sp_parse(san) matches Some(v) && unit_type(v) != Some(tag_response())
                        && unit_type(v) != Some(tag_session_event()) && log == (unit_type(v)
                        != Some(crate::coalesce::tag_message_update()))
                    &&& raw@ == san
                    &&& san.len() <= max_event_bytes()
                },
                RouteAction::Oversized(n) => {
                    &&& sp_trim(san).len() != 0
                    &&& sp_parse(san) matches Some(v) && unit_type(v) != Some(tag_response())
                        && unit_type(v) != Some(tag_session_event())
                    &&& n == san.len()
                    &&& san.len() > max_event_bytes()
                },
            }
        }),
{
    let san = EventHandler::sanitize_json_line(line);
    if EventHandler::is_blank(san.as_slice()) {
        return RouteAction::Blank;
    }
    let v = match crate::json::parse_json(san.as_slice()) {
        Some(v) => v,
        None => {
            return RouteAction::Unparsable(san);
        },
    };
    let ktype = vec![0x74u8, 0x79, 0x70, 0x65];
    assert(ktype@ =~= key_type());
    let tag_resp = vec![0x72u8, 0x65, 0x73, 0x70, 0x6f, 0x6e, 0x73, 0x65];
    assert(tag_resp@ =~= tag_response());
    let tag_se = vec![
        0x73u8, 0x65, 0x73, 0x73, 0x69, 0x6f, 0x6e, 0x5f, 0x65, 0x76, 0x65, 0x6e, 0x74,
    ];
    assert(tag_se@ =~= tag_session_event());
    let tag_mu = vec![
        0x6du8, 0x65, 0x73, 0x73, 0x61, 0x67, 0x65, 0x5f, 0x75, 0x70, 0x64, 0x61, 0x74, 0x65,
    ];
    assert(tag_mu@ =~= crate::coalesce::tag_message_update());
    let is_resp;
    let is_se;
    let should_log;
    match v.get(ktype.as_slice()) {
        Some(Json::Str(t)) => {
            is_resp = crate::json::bytes_eq(t.as_slice(), tag_resp.as_slice());
            is_se = crate::json::bytes_eq(t.as_slice(), tag_se.as_slice());
            should_log = !crate::json::bytes_eq(t.as_slice(), tag_mu.as_slice());
        },
        _ => {
            is_resp = false;
            is_se = false;
            should_log = true;
        },
    }
    if is_resp {
        match RpcResponse::decode(&v) {
            Some(resp) => {
                match &resp.id {
                    Some(id) => {
                        let idc = EventHandler::clone_bytes(id);
                        return RouteAction::DeliverResponse(idc, resp);
                    },
                    None => {
                        return RouteAction::AnonymousResponse;
                    },
                }
            },
            None => {
                let kcmd = vec![0x63u8, 0x6f, 0x6d, 0x6d, 0x61, 0x6e, 0x64];
                assert(kcmd@ =~= key_command());
                let cmd = match v.get(kcmd.as_slice()) {
                    Some(Json::Str(c)) => EventHandler::clone_bytes(c),
                    _ => {
                        let u = vec![0x75u8, 0x6e, 0x6b, 0x6e, 0x6f, 0x77, 0x6e];
                        assert(u@ =~= claimed_command(v@));
                        u
                    },
                };
                return RouteAction::MalformedResponse(cmd);
            },
        }
    }
    if is_se {
        match SessionEventEnvelope::decode(&v) {
            Some(env) => {
                return RouteAction::SessionEvent(env);
            },
            None => {
                return RouteAction::MalformedSessionEvent;
            },
        }
    }
    if san.len() > 60000 {
        return RouteAction::Oversized(san.len());
    }
    RouteAction::EmitRaw(san, should_log)
}

/// The wire form of the UI payload for one session event.
pub open spec fn session_event_payload(sid: Seq<u8>, ev: JsonV) -> Seq<u8> {
    sp_ser(
        JsonV::Obj(
            seq![
                (key_session_id(), JsonV::Str(sid)),
                (key_event(), ev),
            ],
        ),
    )
}

/// What becomes of one compacted session event at the UI boundary.
pub enum EmitDecision {
    /// Forward this payload (`log` says whether to also log a preview).
    Emit(Vec<u8>, bool),
    /// The payload would exceed the cap even after compaction: logged with
    /// its size and dropped, never partially emitted.
    Oversized(usize),
}

/// Builds the UI payload for a session event and applies the size cap.
pub fn emit_session_event(session_id: &[u8], event: &Json) -> (r: EmitDecision)
    ensures
        ({
            let payload = session_event_payload(session_id@, event@);
            match r {
                EmitDecision::Emit(bytes, log) => bytes@ == payload && payload.len()
                    <= max_event_bytes() && log == (unit_type(event@) != Some(
                    crate::coalesce::tag_message_update(),
                )),
                EmitDecision::Oversized(n) => n == payload.len() && payload.len()
                    > max_event_bytes(),
            }
        }),
{
    let mut pairs: Vec<(Vec<u8>, Json)> = Vec::new();
    proof {
        lemma_jview_pairs(pairs@);
        assert(jview_pairs(pairs@) =~= Seq::<(Seq<u8>, JsonV)>::empty());
    }
    let ksid = vec![0x73u8, 0x65, 0x73, 0x73, 0x69, 0x6f, 0x6e, 0x49, 0x64];
    assert(ksid@ =~= key_session_id());
    let sid = crate::json::copy_range(session_id, 0, session_id.len());
    assert(sid@ =~= session_id@);
    push_pair(&mut pairs, ksid, Json::Str(sid));
    let kev = vec![0x65u8, 0x76, 0x65, 0x6e, 0x74];
    assert(kev@ =~= key_event());
    push_pair(&mut pairs, kev, event.clone_value());
    let obj = Json::Obj(pairs);
    assert(jview_pairs(pairs@) =~= seq![
        (key_session_id(), JsonV::Str(session_id@)),
        (key_event(), event@),
    ]);
    assert(obj@ == JsonV::Obj(
        seq![(key_session_id(), JsonV::Str(session_id@)), (key_event(), event@)],
    ));
    let payload = crate::json::to_bytes(&obj);
    if payload.len() > 60000 {
        return EmitDecision::Oversized(payload.len());
    }
    let ktype = vec![0x74u8, 0x79, 0x70, 0x65];
    assert(ktype@ =~= key_type());
    let tag_mu = vec![
        0x6du8, 0x65, 0x73, 0x73, 0x61, 0x67, 0x65, 0x5f, 0x75, 0x70, 0x64, 0x61, 0x74, 0x65,
    ];
    assert(tag_mu@ =~= crate::coalesce::tag_message_update());
    let log = match event.get(ktype.as_slice()) {
        Some(Json::Str(t)) => !crate::json::bytes_eq(t.as_slice(), tag_mu.as_slice()),
        _ => true,
    };
    EmitDecision::Emit(payload, log)
}

/// Applies one decoded session event to the coalescer: the event is
/// compacted; a delta is buffered (and whatever the clock makes due comes
/// out), anything else first releases its session's buffer and then goes
/// out itself — so per session, non-delta order is exactly worker emission
/// order, and deltas never pass a non-delta event.
pub fn handle_session_event(
    coal: &mut SessionDeltaCoalescer,
    env: &SessionEventEnvelope,
    now_ms: u64,
) -> (r: Vec<(Vec<u8>, Vec<Json>)>)
    ensures
        ({
            let ce = sp_compact_session_event(env.event@);
            if delta_key(ce) is Some {
                ({
                    let queued = assoc_queue(old(coal)@, env.session_id@, ce);
                    ||| (final(coal)@ == queued && r@.len() == 0 && (queued.len() == 0 || now_ms
                        < old(coal).last_flush() || now_ms - old(coal).last_flush() < old(
                        coal,
                    ).interval()))
                    ||| (final(coal)@ == Seq::<(Seq<u8>, Seq<JsonV>)>::empty() && r@.map_values(
                        |p: (Vec<u8>, Vec<Json>)| (p.0@, jview_seq(p.1@)),
                    ) == queued && final(coal).last_flush() == now_ms)
                })
            } else {
                ({
                    let flushed = match assoc_get(old(coal)@, env.session_id@) {
                        Some(q) => q,
                        None => Seq::<JsonV>::empty(),
                    };
                    &&& final(coal)@ == assoc_remove(old(coal)@, env.session_id@)
                    &&& r@.len() == 1
                    &&& r@[0].0@ == env.session_id@
                    &&& jview_seq(r@[0].1@) == flushed.push(ce)
                })
            }
        }),
{
    let ce = crate::compact::compact_session_event_for_frontend(&env.event);
    if SessionDeltaCoalescer::is_delta_event(&ce) {
        let _ = coal.maybe_queue_delta(env.session_id.as_slice(), ce);
        match coal.flush_due(now_ms) {
            Some(batches) => batches,
            None => Vec::new(),
        }
    } else {
        let mut q = coal.flush_session(env.session_id.as_slice(), now_ms);
        let ghost q0 = q@;
        q.push(ce);
        proof {
            assert(q@.drop_last() =~= q0);
            crate::json::lemma_jview_seq_push(q0, q@.last());
            assert(q0.push(q@.last()) =~= q@);
        }
        let sid = EventHandler::clone_bytes(&env.session_id);
        let mut r: Vec<(Vec<u8>, Vec<Json>)> = Vec::new();
        r.push((sid, q));
        r
    }
}

} // verus!

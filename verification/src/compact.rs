//! Compaction of session events before they reach the UI.
//!
//! Webview transports truncate large payloads, so every structured payload
//! is bounded before it is emitted: strings are cut at a character cap with
//! an ellipsis, arrays and objects at an item cap with a count marker, and
//! recursion depth at a small cap with a count-only placeholder. Known
//! event shapes keep only what the UI actually renders: lifecycle markers
//! become bare tags, deltas keep their fragment, tool calls normalize to
//! id, name and arguments, and terminal message-end events keep role, stop
//! reason and error message.

use vstd::prelude::*;

use crate::coalesce::key_assistant;
use crate::handler::{EventHandler, sp_truncate};
use crate::json::{Json, JsonV, jget, jview_pairs, jview_seq, lemma_jview_pairs, lemma_jview_seq,
    obj_get, obj_remove, obj_set, push_pair, bytes_eq};
use crate::types::{key_type, key_id, key_message};

verus! {

broadcast use vstd::seq::group_seq_axioms;

pub open spec fn key_trunc_arr() -> Seq<u8> {
    // _truncatedArrayItems
    seq![
        0x5f, 0x74, 0x72, 0x75, 0x6e, 0x63, 0x61, 0x74, 0x65, 0x64, 0x41, 0x72, 0x72, 0x61,
        0x79, 0x49, 0x74, 0x65, 0x6d, 0x73,
    ]
}

pub open spec fn key_trunc_obj() -> Seq<u8> {
    // _truncatedObjectKeys
    seq![
        0x5f, 0x74, 0x72, 0x75, 0x6e, 0x63, 0x61, 0x74, 0x65, 0x64, 0x4f, 0x62, 0x6a, 0x65,
        0x63, 0x74, 0x4b, 0x65, 0x79, 0x73,
    ]
}

/// A count clamped into `i64` range.
pub open spec fn count_to_int(n: nat) -> int {
    if n > 0x7fff_ffff_ffff_ffff {
        0x7fff_ffff_ffff_ffff
    } else {
        n as int
    }
}

/// The placeholder left where an array was cut or elided.
pub open spec fn arr_marker(n: nat) -> JsonV {
    JsonV::Obj(seq![(key_trunc_arr(), JsonV::Int(count_to_int(n)))])
}

/// The placeholder left where an object was cut or elided.
pub open spec fn obj_marker(n: nat) -> JsonV {
    JsonV::Obj(seq![(key_trunc_obj(), JsonV::Int(count_to_int(n)))])
}

/// The generic bounding pass: strings cut at 1024 characters, arrays and
/// objects at 16 items, depth at 2.
pub open spec fn sp_compact(v: JsonV, depth: nat) -> JsonV
    decreases v, 0int, 0int,
{
    match v {
        JsonV::Str(t) => JsonV::Str(sp_truncate(t, 1024)),
        JsonV::Arr(items) => if depth >= 2 {
            arr_marker(items.len())
        } else {
            let n = if items.len() > 16 {
                16nat
            } else {
                items.len()
            };
            let c = sp_compact_items(items, (depth + 1) as nat, n);
            if items.len() > 16 {
                JsonV::Arr(c.push(arr_marker((items.len() - 16) as nat)))
            } else {
                JsonV::Arr(c)
            }
        },
        JsonV::Obj(pairs) => if depth >= 2 {
            obj_marker(pairs.len())
        } else {
            let n = if pairs.len() > 16 {
                16nat
            } else {
                pairs.len()
            };
            let c = sp_compact_pairs(pairs, (depth + 1) as nat, n);
            if pairs.len() > 16 {
                JsonV::Obj(
                    c.push((key_trunc_obj(), JsonV::Int(count_to_int((pairs.len() - 16) as nat)))),
                )
            } else {
                JsonV::Obj(c)
            }
        },
        _ => v,
    }
}

/// The first `n` elements, each compacted.
pub open spec fn sp_compact_items(items: Seq<JsonV>, depth: nat, n: nat) -> Seq<JsonV>
    decreases items, 1int, n,
{
    if n == 0 || n > items.len() {
        Seq::empty()
    } else {
        sp_compact_items(items, depth, (n - 1) as nat).push(
            sp_compact(items[n - 1], depth),
        )
    }
}

/// The first `n` members, values compacted.
pub open spec fn sp_compact_pairs(pairs: Seq<(Seq<u8>, JsonV)>, depth: nat, n: nat) -> Seq<
    (Seq<u8>, JsonV),
>
    decreases pairs, 1int, n,
{
    if n == 0 || n > pairs.len() {
        Seq::empty()
    } else {
        sp_compact_pairs(pairs, depth, (n - 1) as nat).push(
            (pairs[n - 1].0, sp_compact(pairs[n - 1].1, depth)),
        )
    }
}

fn count_i64(n: usize) -> (r: i64)
    ensures
        r as int == count_to_int(n as nat),
{
    let n64 = n as u64;
    if n64 > 0x7fff_ffff_ffff_ffff {
        0x7fff_ffff_ffff_ffff
    } else {
        n64 as i64
    }
}

fn make_arr_marker(n: usize) -> (r: Json)
    ensures
        r@ == arr_marker(n as nat),
{
    let mut pairs: Vec<(Vec<u8>, Json)> = Vec::new();
    proof {
        lemma_jview_pairs(pairs@);
        assert(jview_pairs(pairs@) =~= Seq::<(Seq<u8>, JsonV)>::empty());
    }
    let k = vec![
        0x5fu8, 0x74, 0x72, 0x75, 0x6e, 0x63, 0x61, 0x74, 0x65, 0x64, 0x41, 0x72, 0x72, 0x61,
        0x79, 0x49, 0x74, 0x65, 0x6d, 0x73,
    ];
    assert(k@ =~= key_trunc_arr());
    push_pair(&mut pairs, k, Json::Int(count_i64(n)));
    let r = Json::Obj(pairs);
    assert(r@ =~= arr_marker(n as nat));
    r
}

fn make_obj_marker(n: usize) -> (r: Json)
    ensures
        r@ == obj_marker(n as nat),
{
    let mut pairs: Vec<(Vec<u8>, Json)> = Vec::new();
    proof {
        lemma_jview_pairs(pairs@);
        assert(jview_pairs(pairs@) =~= Seq::<(Seq<u8>, JsonV)>::empty());
    }
    let k = vec![
        0x5fu8, 0x74, 0x72, 0x75, 0x6e, 0x63, 0x61, 0x74, 0x65, 0x64, 0x4f, 0x62, 0x6a, 0x65,
        0x63, 0x74, 0x4b, 0x65, 0x79, 0x73,
    ];
    assert(k@ =~= key_trunc_obj());
    push_pair(&mut pairs, k, Json::Int(count_i64(n)));
    let r = Json::Obj(pairs);
    assert(r@ =~= obj_marker(n as nat));
    r
}

/// The generic bounding pass.
#[verifier::loop_isolation(false)]
#[verifier::rlimit(100)]
pub fn compact_json_value(value: &Json, depth: usize) -> (r: Json)
    ensures
        r@ == sp_compact(value@, depth as nat),
    decreases value, 0int, 0int,
{
    match value {
        Json::Str(t) => Json::Str(EventHandler::truncate_string(t.as_slice(), 1024)),
        Json::Arr(items) => {
            proof {
                lemma_jview_seq(items@);
            }
            let ghost iv = jview_seq(items@);
            if depth >= 2 {
                return make_arr_marker(items.len());
            }
            let lim: usize = if items.len() > 16 {
                16
            } else {
                items.len()
            };
            let mut out: Vec<Json> = Vec::new();
            let mut i: usize = 0;
            proof {
                lemma_jview_seq(out@);
                assert(jview_seq(out@) =~= sp_compact_items(iv, depth as nat + 1, 0));
            }
            while i < lim
                invariant
                    i <= lim,
                    jview_seq(out@) == sp_compact_items(iv, depth as nat + 1, i as nat),
                decreases lim - i,
            {
                proof {
                    assert(decreases_to!(*value => items@[i as int])) by {
                        assert(decreases_to!(*value => *items));
                        assert(decreases_to!(*items => items@));
                        assert(decreases_to!(items@ => items@[i as int]));
                    }
                }
                let c = compact_json_value(&items[i], depth + 1);
                let ghost pre = out@;
                out.push(c);
                proof {
                    assert(out@.drop_last() =~= pre);
                    crate::json::lemma_jview_seq_push(pre, out@.last());
                    assert(pre.push(out@.last()) =~= out@);
                }
                i += 1;
            }
            if items.len() > 16 {
                let m = make_arr_marker(items.len() - 16);
                let ghost pre = out@;
                out.push(m);
                proof {
                    assert(out@.drop_last() =~= pre);
                    crate::json::lemma_jview_seq_push(pre, out@.last());
                    assert(pre.push(out@.last()) =~= out@);
                }
            }
            Json::Arr(out)
        },
        Json::Obj(pairs) => {
            proof {
                lemma_jview_pairs(pairs@);
            }
            let ghost pv = jview_pairs(pairs@);
            if depth >= 2 {
                return make_obj_marker(pairs.len());
            }
            let lim: usize = if pairs.len() > 16 {
                16
            } else {
                pairs.len()
            };
            let mut out: Vec<(Vec<u8>, Json)> = Vec::new();
            let mut i: usize = 0;
            proof {
                lemma_jview_pairs(out@);
                assert(jview_pairs(out@) =~= sp_compact_pairs(pv, depth as nat + 1, 0));
            }
            while i < lim
                invariant
                    i <= lim,
                    jview_pairs(out@) == sp_compact_pairs(pv, depth as nat + 1, i as nat),
                decreases lim - i,
            {
                proof {
                    assert(decreases_to!(*value => pairs@[i as int].1)) by {
                        assert(decreases_to!(*value => *pairs));
                        assert(decreases_to!(*pairs => pairs@));
                        assert(decreases_to!(pairs@ => pairs@[i as int]));
                        assert(decreases_to!(pairs@[i as int] => pairs@[i as int].1));
                    }
                }
                let k = crate::json::copy_range(pairs[i].0.as_slice(), 0, pairs[i].0.len());
                assert(k@ =~= pairs@[i as int].0@);
                let c = compact_json_value(&pairs[i].1, depth + 1);
                push_pair(&mut out, k, c);
                i += 1;
            }
            if pairs.len() > 16 {
                let k = vec![
                    0x5fu8, 0x74, 0x72, 0x75, 0x6e, 0x63, 0x61, 0x74, 0x65, 0x64, 0x4f, 0x62,
                    0x6a, 0x65, 0x63, 0x74, 0x4b, 0x65, 0x79, 0x73,
                ];
                assert(k@ =~= key_trunc_obj());
                push_pair(&mut out, k, Json::Int(count_i64(pairs.len() - 16)));
            }
            Json::Obj(out)
        },
        _ => value.clone_value(),
    }
}

pub open spec fn key_tool_call_id() -> Seq<u8> {
    // toolCallId
    seq![0x74, 0x6f, 0x6f, 0x6c, 0x43, 0x61, 0x6c, 0x6c, 0x49, 0x64]
}

pub open spec fn key_tool_name() -> Seq<u8> {
    // toolName
    seq![0x74, 0x6f, 0x6f, 0x6c, 0x4e, 0x61, 0x6d, 0x65]
}

pub open spec fn key_args() -> Seq<u8> {
    // args
    seq![0x61, 0x72, 0x67, 0x73]
}

pub open spec fn key_is_error() -> Seq<u8> {
    // isError
    seq![0x69, 0x73, 0x45, 0x72, 0x72, 0x6f, 0x72]
}

pub open spec fn key_result() -> Seq<u8> {
    // result
    seq![0x72, 0x65, 0x73, 0x75, 0x6c, 0x74]
}

pub open spec fn key_name() -> Seq<u8> {
    // name
    seq![0x6e, 0x61, 0x6d, 0x65]
}

pub open spec fn key_arguments() -> Seq<u8> {
    // arguments
    seq![0x61, 0x72, 0x67, 0x75, 0x6d, 0x65, 0x6e, 0x74, 0x73]
}

pub open spec fn key_tool_call() -> Seq<u8> {
    // toolCall
    seq![0x74, 0x6f, 0x6f, 0x6c, 0x43, 0x61, 0x6c, 0x6c]
}

pub open spec fn key_partial() -> Seq<u8> {
    // partial
    seq![0x70, 0x61, 0x72, 0x74, 0x69, 0x61, 0x6c]
}

pub open spec fn key_content() -> Seq<u8> {
    // content
    seq![0x63, 0x6f, 0x6e, 0x74, 0x65, 0x6e, 0x74]
}

pub open spec fn key_role() -> Seq<u8> {
    // role
    seq![0x72, 0x6f, 0x6c, 0x65]
}

pub open spec fn key_stop_reason() -> Seq<u8> {
    // stopReason
    seq![0x73, 0x74, 0x6f, 0x70, 0x52, 0x65, 0x61, 0x73, 0x6f, 0x6e]
}

pub open spec fn key_error_message() -> Seq<u8> {
    // errorMessage
    seq![0x65, 0x72, 0x72, 0x6f, 0x72, 0x4d, 0x65, 0x73, 0x73, 0x61, 0x67, 0x65]
}

pub open spec fn tag_tool_call() -> Seq<u8> {
    // toolCall
    seq![0x74, 0x6f, 0x6f, 0x6c, 0x43, 0x61, 0x6c, 0x6c]
}

pub open spec fn tag_tes() -> Seq<u8> {
    // tool_execution_start
    seq![
        0x74, 0x6f, 0x6f, 0x6c, 0x5f, 0x65, 0x78, 0x65, 0x63, 0x75, 0x74, 0x69, 0x6f, 0x6e,
        0x5f, 0x73, 0x74, 0x61, 0x72, 0x74,
    ]
}

pub open spec fn tag_teu() -> Seq<u8> {
    // tool_execution_update
    seq![
        0x74, 0x6f, 0x6f, 0x6c, 0x5f, 0x65, 0x78, 0x65, 0x63, 0x75, 0x74, 0x69, 0x6f, 0x6e,
        0x5f, 0x75, 0x70, 0x64, 0x61, 0x74, 0x65,
    ]
}

pub open spec fn tag_tee() -> Seq<u8> {
    // tool_execution_end
    seq![
        0x74, 0x6f, 0x6f, 0x6c, 0x5f, 0x65, 0x78, 0x65, 0x63, 0x75, 0x74, 0x69, 0x6f, 0x6e,
        0x5f, 0x65, 0x6e, 0x64,
    ]
}

pub open spec fn tag_agent_start() -> Seq<u8> {
    // agent_start
    seq![0x61, 0x67, 0x65, 0x6e, 0x74, 0x5f, 0x73, 0x74, 0x61, 0x72, 0x74]
}

pub open spec fn tag_agent_end() -> Seq<u8> {
    // agent_end
    seq![0x61, 0x67, 0x65, 0x6e, 0x74, 0x5f, 0x65, 0x6e, 0x64]
}

pub open spec fn tag_turn_start() -> Seq<u8> {
    // turn_start
    seq![0x74, 0x75, 0x72, 0x6e, 0x5f, 0x73, 0x74, 0x61, 0x72, 0x74]
}

pub open spec fn tag_turn_end() -> Seq<u8> {
    // turn_end
    seq![0x74, 0x75, 0x72, 0x6e, 0x5f, 0x65, 0x6e, 0x64]
}

pub open spec fn tag_message_end() -> Seq<u8> {
    // message_end
    seq![0x6d, 0x65, 0x73, 0x73, 0x61, 0x67, 0x65, 0x5f, 0x65, 0x6e, 0x64]
}

pub open spec fn tag_toolcall_start() -> Seq<u8> {
    // toolcall_start
    seq![0x74, 0x6f, 0x6f, 0x6c, 0x63, 0x61, 0x6c, 0x6c, 0x5f, 0x73, 0x74, 0x61, 0x72, 0x74]
}

pub open spec fn tag_toolcall_delta() -> Seq<u8> {
    // toolcall_delta
    seq![0x74, 0x6f, 0x6f, 0x6c, 0x63, 0x61, 0x6c, 0x6c, 0x5f, 0x64, 0x65, 0x6c, 0x74, 0x61]
}

pub open spec fn tag_assistant() -> Seq<u8> {
    // assistant
    seq![0x61, 0x73, 0x73, 0x69, 0x73, 0x74, 0x61, 0x6e, 0x74]
}

/// A string field's contents, or empty.
pub open spec fn str_or_empty(o: Option<JsonV>) -> Seq<u8> {
    match o {
        Some(JsonV::Str(t)) => t,
        _ => Seq::empty(),
    }
}

/// A tool call normalized to type, id, name and bounded arguments.
pub open spec fn sp_compact_tool_call(v: JsonV) -> JsonV {
    JsonV::Obj(
        seq![
            (key_type(), JsonV::Str(tag_tool_call())),
            (key_id(), JsonV::Str(str_or_empty(jget(v, key_id())))),
            (key_name(), JsonV::Str(str_or_empty(jget(v, key_name())))),
            (
                key_arguments(),
                match jget(v, key_arguments()) {
                    Some(a) => sp_compact(a, 0),
                    None => JsonV::Obj(Seq::empty()),
                },
            ),
        ],
    )
}

/// An index-based tool call reference resolved out of the snapshot the
/// delta points into, before that snapshot is dropped.
pub open spec fn sp_extract_tool_call(a: JsonV) -> Option<JsonV> {
    match jget(a, crate::coalesce::key_content_index()) {
        Some(JsonV::Int(i)) => if i >= 0 {
            match jget(a, key_partial()) {
                Some(p) => match jget(p, key_content()) {
                    Some(JsonV::Arr(content)) => if i < content.len() {
                        let tc = content[i];
                        if jget(tc, key_type()) == Some(JsonV::Str(tag_tool_call())) {
                            Some(sp_compact_tool_call(tc))
                        } else {
                            None
                        }
                    } else {
                        None
                    },
                    _ => None,
                },
                None => None,
            }
        } else {
            None
        },
        _ => None,
    }
}

pub open spec fn sp_compact_tes(v: JsonV) -> JsonV {
    JsonV::Obj(
        seq![
            (key_type(), JsonV::Str(tag_tes())),
            (key_tool_call_id(), JsonV::Str(str_or_empty(jget(v, key_tool_call_id())))),
            (key_tool_name(), JsonV::Str(str_or_empty(jget(v, key_tool_name())))),
            (
                key_args(),
                match jget(v, key_args()) {
                    Some(a) => sp_compact(a, 0),
                    None => JsonV::Obj(Seq::empty()),
                },
            ),
        ],
    )
}

pub open spec fn sp_compact_teu(v: JsonV) -> JsonV {
    JsonV::Obj(
        seq![
            (key_type(), JsonV::Str(tag_teu())),
            (key_tool_call_id(), JsonV::Str(str_or_empty(jget(v, key_tool_call_id())))),
            (key_tool_name(), JsonV::Str(str_or_empty(jget(v, key_tool_name())))),
        ],
    )
}

pub open spec fn sp_compact_tee(v: JsonV) -> JsonV {
    JsonV::Obj(
        seq![
            (key_type(), JsonV::Str(tag_tee())),
            (key_tool_call_id(), JsonV::Str(str_or_empty(jget(v, key_tool_call_id())))),
            (key_tool_name(), JsonV::Str(str_or_empty(jget(v, key_tool_name())))),
            (
                key_is_error(),
                JsonV::Bool(
                    match jget(v, key_is_error()) {
                        Some(JsonV::Bool(b)) => b,
                        _ => false,
                    },
                ),
            ),
            (
                key_result(),
                match jget(v, key_result()) {
                    Some(JsonV::Str(t)) => JsonV::Str(sp_truncate(t, 24000)),
                    Some(x) => sp_compact(x, 0),
                    None => JsonV::Null,
                },
            ),
        ],
    )
}

/// The role named in an event's `message`, or `assistant`.
pub open spec fn sp_role_of(m: Option<JsonV>) -> Seq<u8> {
    match m {
        Some(mm) => match jget(mm, key_role()) {
            Some(JsonV::Str(r)) => r,
            _ => tag_assistant(),
        },
        None => tag_assistant(),
    }
}

/// The compacted assistant event inside a `message_update`: an index-based
/// tool call is resolved in, any tool call is normalized, and the bulky
/// `partial` snapshot is dropped (the UI reconstructs text from deltas).
pub open spec fn sp_compact_assistant(a: JsonV) -> JsonV {
    match a {
        JsonV::Obj(ap) => {
            let aty = str_or_empty(jget(a, key_type()));
            let ap1 = if (aty == tag_toolcall_start() || aty == tag_toolcall_delta())
                && obj_get(ap, key_tool_call()) is None {
                match sp_extract_tool_call(a) {
                    Some(tc) => obj_set(ap, key_tool_call(), tc),
                    None => ap,
                }
            } else {
                ap
            };
            let ap2 = match obj_get(ap1, key_tool_call()) {
                Some(tc) => obj_set(ap1, key_tool_call(), sp_compact_tool_call(tc)),
                None => ap1,
            };
            JsonV::Obj(obj_remove(ap2, key_partial()))
        },
        _ => a,
    }
}

pub open spec fn sp_message_update(e: JsonV) -> JsonV {
    let role = sp_role_of(jget(e, key_message()));
    let ame = if e is Obj {
        match jget(e, key_assistant()) {
            Some(a) => sp_compact_assistant(a),
            None => JsonV::Obj(Seq::empty()),
        }
    } else {
        JsonV::Obj(Seq::empty())
    };
    JsonV::Obj(
        seq![
            (key_type(), JsonV::Str(crate::coalesce::tag_message_update())),
            (key_message(), JsonV::Obj(seq![(key_role(), JsonV::Str(role))])),
            (key_assistant(), ame),
        ],
    )
}

pub open spec fn sp_message_end(e: JsonV) -> JsonV {
    let m = jget(e, key_message());
    let role = sp_role_of(m);
    let base = seq![(key_role(), JsonV::Str(role))];
    let p1 = match m {
        Some(mm) => match jget(mm, key_stop_reason()) {
            Some(JsonV::Str(sr)) => base.push((key_stop_reason(), JsonV::Str(sr))),
            _ => base,
        },
        None => base,
    };
    let p2 = match m {
        Some(mm) => match jget(mm, key_error_message()) {
            Some(JsonV::Str(em)) => p1.push((key_error_message(), JsonV::Str(em))),
            _ => p1,
        },
        None => p1,
    };
    JsonV::Obj(
        seq![
            (key_type(), JsonV::Str(tag_message_end())),
            (key_message(), JsonV::Obj(p2)),
        ],
    )
}

/// The per-discriminator compaction of a session event: lifecycle markers
/// pass through as bare tags; deltas keep fragment, kind and slot; tool
/// executions normalize; terminal events keep role, stop reason and error;
/// any other structured payload goes through the generic bounding pass.
pub open spec fn sp_compact_session_event(e: JsonV) -> JsonV {
    match jget(e, key_type()) {
        Some(JsonV::Str(t)) => if t == tag_agent_start() || t == tag_agent_end() || t
            == tag_turn_start() || t == tag_turn_end() {
            JsonV::Obj(seq![(key_type(), JsonV::Str(t))])
        } else if t == crate::coalesce::tag_message_update() {
            sp_message_update(e)
        } else if t == tag_tes() {
            sp_compact_tes(e)
        } else if t == tag_teu() {
            sp_compact_teu(e)
        } else if t == tag_tee() {
            sp_compact_tee(e)
        } else if t == tag_message_end() {
            sp_message_end(e)
        } else {
            sp_compact(e, 0)
        },
        _ => sp_compact(e, 0),
    }
}

/// A string field's contents, or empty.
fn str_field(v: &Json, key: &[u8]) -> (r: Vec<u8>)
    ensures
        r@ == str_or_empty(jget(v@, key@)),
{
    match v.get(key) {
        Some(Json::Str(t)) => EventHandler::clone_bytes(t),
        _ => Vec::new(),
    }
}

/// An empty object value.
fn empty_obj() -> (r: Json)
    ensures
        r@ == JsonV::Obj(Seq::<(Seq<u8>, JsonV)>::empty()),
{
    let pairs: Vec<(Vec<u8>, Json)> = Vec::new();
    proof {
        lemma_jview_pairs(pairs@);
        assert(jview_pairs(pairs@) =~= Seq::<(Seq<u8>, JsonV)>::empty());
    }
    Json::Obj(pairs)
}

/// A tool call normalized to type, id, name and bounded arguments.
pub fn compact_tool_call(v: &Json) -> (r: Json)
    ensures
        r@ == sp_compact_tool_call(v@),
{
    let mut pairs: Vec<(Vec<u8>, Json)> = Vec::new();
    proof {
        lemma_jview_pairs(pairs@);
        assert(jview_pairs(pairs@) =~= Seq::<(Seq<u8>, JsonV)>::empty());
    }
    let ktype = vec![0x74u8, 0x79, 0x70, 0x65];
    assert(ktype@ =~= key_type());
    push_pair(
        &mut pairs,
        ktype,
        Json::Str(
            {
                let t = vec![0x74u8, 0x6f, 0x6f, 0x6c, 0x43, 0x61, 0x6c, 0x6c];
                assert(t@ =~= tag_tool_call());
                t
            },
        ),
    );
    let kid = vec![0x69u8, 0x64];
    assert(kid@ =~= key_id());
    let idv = str_field(v, kid.as_slice());
    push_pair(&mut pairs, kid, Json::Str(idv));
    let kname = vec![0x6eu8, 0x61, 0x6d, 0x65];
    assert(kname@ =~= key_name());
    let namev = str_field(v, kname.as_slice());
    push_pair(&mut pairs, kname, Json::Str(namev));
    let kargs = vec![0x61u8, 0x72, 0x67, 0x75, 0x6d, 0x65, 0x6e, 0x74, 0x73];
    assert(kargs@ =~= key_arguments());
    let args = match v.get(kargs.as_slice()) {
        Some(a) => compact_json_value(a, 0),
        None => empty_obj(),
    };
    push_pair(&mut pairs, kargs, args);
    let r = Json::Obj(pairs);
    assert(jview_pairs(pairs@) =~= sp_compact_tool_call(v@)->Obj_0);
    r
}

/// An index-based tool call reference resolved out of the snapshot.
pub fn extract_tool_call_from_partial(a: &Json) -> (r: Option<Json>)
    ensures
        match r {
            Some(tc) => sp_extract_tool_call(a@) == Some(tc@),
            None => sp_extract_tool_call(a@) is None,
        },
{
    let kci = vec![0x63u8, 0x6f, 0x6e, 0x74, 0x65, 0x6e, 0x74, 0x49, 0x6e, 0x64, 0x65, 0x78];
    assert(kci@ =~= crate::coalesce::key_content_index());
    let i = match a.get(kci.as_slice()) {
        Some(Json::Int(i)) => *i,
        _ => {
            return None;
        },
    };
    if i < 0 {
        return None;
    }
    let kpartial = vec![0x70u8, 0x61, 0x72, 0x74, 0x69, 0x61, 0x6c];
    assert(kpartial@ =~= key_partial());
    let p = match a.get(kpartial.as_slice()) {
        Some(p) => p,
        None => {
            return None;
        },
    };
    let kcontent = vec![0x63u8, 0x6f, 0x6e, 0x74, 0x65, 0x6e, 0x74];
    assert(kcontent@ =~= key_content());
    let content = match p.get(kcontent.as_slice()) {
        Some(Json::Arr(content)) => content,
        _ => {
            return None;
        },
    };
    proof {
        crate::json::lemma_jview_seq(content@);
    }
    if i as u64 >= content.len() as u64 {
        return None;
    }
    let tc = &content[i as usize];
    let ktype = vec![0x74u8, 0x79, 0x70, 0x65];
    assert(ktype@ =~= key_type());
    let tag = vec![0x74u8, 0x6f, 0x6f, 0x6c, 0x43, 0x61, 0x6c, 0x6c];
    assert(tag@ =~= tag_tool_call());
    match tc.get(ktype.as_slice()) {
        Some(Json::Str(t)) => {
            if bytes_eq(t.as_slice(), tag.as_slice()) {
                Some(compact_tool_call(tc))
            } else {
                None
            }
        },
        _ => None,
    }
}

pub fn compact_tool_execution_start_event(v: &Json) -> (r: Json)
    ensures
        r@ == sp_compact_tes(v@),
{
    let mut pairs: Vec<(Vec<u8>, Json)> = Vec::new();
    proof {
        lemma_jview_pairs(pairs@);
        assert(jview_pairs(pairs@) =~= Seq::<(Seq<u8>, JsonV)>::empty());
    }
    let ktype = vec![0x74u8, 0x79, 0x70, 0x65];
    assert(ktype@ =~= key_type());
    let tag = vec![
        0x74u8, 0x6f, 0x6f, 0x6c, 0x5f, 0x65, 0x78, 0x65, 0x63, 0x75, 0x74, 0x69, 0x6f, 0x6e,
        0x5f, 0x73, 0x74, 0x61, 0x72, 0x74,
    ];
    assert(tag@ =~= tag_tes());
    push_pair(&mut pairs, ktype, Json::Str(tag));
    let kid = vec![0x74u8, 0x6f, 0x6f, 0x6c, 0x43, 0x61, 0x6c, 0x6c, 0x49, 0x64];
    assert(kid@ =~= key_tool_call_id());
    let idv = str_field(v, kid.as_slice());
    push_pair(&mut pairs, kid, Json::Str(idv));
    let kname = vec![0x74u8, 0x6f, 0x6f, 0x6c, 0x4e, 0x61, 0x6d, 0x65];
    assert(kname@ =~= key_tool_name());
    let namev = str_field(v, kname.as_slice());
    push_pair(&mut pairs, kname, Json::Str(namev));
    let kargs = vec![0x61u8, 0x72, 0x67, 0x73];
    assert(kargs@ =~= key_args());
    let args = match v.get(kargs.as_slice()) {
        Some(a) => compact_json_value(a, 0),
        None => empty_obj(),
    };
    push_pair(&mut pairs, kargs, args);
    let r = Json::Obj(pairs);
    assert(jview_pairs(pairs@) =~= sp_compact_tes(v@)->Obj_0);
    r
}

pub fn compact_tool_execution_update_event(v: &Json) -> (r: Json)
    ensures
        r@ == sp_compact_teu(v@),
{
    let mut pairs: Vec<(Vec<u8>, Json)> = Vec::new();
    proof {
        lemma_jview_pairs(pairs@);
        assert(jview_pairs(pairs@) =~= Seq::<(Seq<u8>, JsonV)>::empty());
    }
    let ktype = vec![0x74u8, 0x79, 0x70, 0x65];
    assert(ktype@ =~= key_type());
    let tag = vec![
        0x74u8, 0x6f, 0x6f, 0x6c, 0x5f, 0x65, 0x78, 0x65, 0x63, 0x75, 0x74, 0x69, 0x6f, 0x6e,
        0x5f, 0x75, 0x70, 0x64, 0x61, 0x74, 0x65,
    ];
    assert(tag@ =~= tag_teu());
    push_pair(&mut pairs, ktype, Json::Str(tag));
    let kid = vec![0x74u8, 0x6f, 0x6f, 0x6c, 0x43, 0x61, 0x6c, 0x6c, 0x49, 0x64];
    assert(kid@ =~= key_tool_call_id());
    let idv = str_field(v, kid.as_slice());
    push_pair(&mut pairs, kid, Json::Str(idv));
    let kname = vec![0x74u8, 0x6f, 0x6f, 0x6c, 0x4e, 0x61, 0x6d, 0x65];
    assert(kname@ =~= key_tool_name());
    let namev = str_field(v, kname.as_slice());
    push_pair(&mut pairs, kname, Json::Str(namev));
    let r = Json::Obj(pairs);
    assert(jview_pairs(pairs@) =~= sp_compact_teu(v@)->Obj_0);
    r
}

pub fn compact_tool_execution_end_event(v: &Json) -> (r: Json)
    ensures
        r@ == sp_compact_tee(v@),
{
    let mut pairs: Vec<(Vec<u8>, Json)> = Vec::new();
    proof {
        lemma_jview_pairs(pairs@);
        assert(jview_pairs(pairs@) =~= Seq::<(Seq<u8>, JsonV)>::empty());
    }
    let ktype = vec![0x74u8, 0x79, 0x70, 0x65];
    assert(ktype@ =~= key_type());
    let tag = vec![
        0x74u8, 0x6f, 0x6f, 0x6c, 0x5f, 0x65, 0x78, 0x65, 0x63, 0x75, 0x74, 0x69, 0x6f, 0x6e,
        0x5f, 0x65, 0x6e, 0x64,
    ];
    assert(tag@ =~= tag_tee());
    push_pair(&mut pairs, ktype, Json::Str(tag));
    let kid = vec![0x74u8, 0x6f, 0x6f, 0x6c, 0x43, 0x61, 0x6c, 0x6c, 0x49, 0x64];
    assert(kid@ =~= key_tool_call_id());
    let idv = str_field(v, kid.as_slice());
    push_pair(&mut pairs, kid, Json::Str(idv));
    let kname = vec![0x74u8, 0x6f, 0x6f, 0x6c, 0x4e, 0x61, 0x6d, 0x65];
    assert(kname@ =~= key_tool_name());
    let namev = str_field(v, kname.as_slice());
    push_pair(&mut pairs, kname, Json::Str(namev));
    let kerr = vec![0x69u8, 0x73, 0x45, 0x72, 0x72, 0x6f, 0x72];
    assert(kerr@ =~= key_is_error());
    let is_error = match v.get(kerr.as_slice()) {
        Some(Json::Bool(b)) => *b,
        _ => false,
    };
    push_pair(&mut pairs, kerr, Json::Bool(is_error));
    let kres = vec![0x72u8, 0x65, 0x73, 0x75, 0x6c, 0x74];
    assert(kres@ =~= key_result());
    let result = match v.get(kres.as_slice()) {
        Some(Json::Str(t)) => Json::Str(EventHandler::truncate_string(t.as_slice(), 24000)),
        Some(x) => compact_json_value(x, 0),
        None => Json::Null,
    };
    push_pair(&mut pairs, kres, result);
    let r = Json::Obj(pairs);
    assert(jview_pairs(pairs@) =~= sp_compact_tee(v@)->Obj_0);
    r
}

/// The role named in an event's `message`, or `assistant`.
fn role_field(e: &Json) -> (r: Vec<u8>)
    ensures
        r@ == sp_role_of(jget(e@, key_message())),
{
    let kmsg = vec![0x6du8, 0x65, 0x73, 0x73, 0x61, 0x67, 0x65];
    assert(kmsg@ =~= key_message());
    let fallback = vec![0x61u8, 0x73, 0x73, 0x69, 0x73, 0x74, 0x61, 0x6e, 0x74];
    assert(fallback@ =~= tag_assistant());
    match e.get(kmsg.as_slice()) {
        Some(m) => {
            let krole = vec![0x72u8, 0x6f, 0x6c, 0x65];
            assert(krole@ =~= key_role());
            match m.get(krole.as_slice()) {
                Some(Json::Str(t)) => EventHandler::clone_bytes(t),
                _ => fallback,
            }
        },
        None => fallback,
    }
}

/// The compacted assistant event inside a `message_update`.
fn compact_assistant(a: &Json) -> (r: Json)
    ensures
        r@ == sp_compact_assistant(a@),
{
    if !matches!(a, Json::Obj(_)) {
        return a.clone_value();
    }
    let ktype = vec![0x74u8, 0x79, 0x70, 0x65];
    assert(ktype@ =~= key_type());
    let aty = str_field(a, ktype.as_slice());
    let tstart = vec![
        0x74u8, 0x6f, 0x6f, 0x6c, 0x63, 0x61, 0x6c, 0x6c, 0x5f, 0x73, 0x74, 0x61, 0x72, 0x74,
    ];
    assert(tstart@ =~= tag_toolcall_start());
    let tdelta = vec![
        0x74u8, 0x6f, 0x6f, 0x6c, 0x63, 0x61, 0x6c, 0x6c, 0x5f, 0x64, 0x65, 0x6c, 0x74, 0x61,
    ];
    assert(tdelta@ =~= tag_toolcall_delta());
    let ktc = vec![0x74u8, 0x6f, 0x6f, 0x6c, 0x43, 0x61, 0x6c, 0x6c];
    assert(ktc@ =~= key_tool_call());
    let is_partial_tc = (bytes_eq(aty.as_slice(), tstart.as_slice()) || bytes_eq(
        aty.as_slice(),
        tdelta.as_slice(),
    )) && matches!(a.get(ktc.as_slice()), None);
    let a1 = if is_partial_tc {
        match extract_tool_call_from_partial(a) {
            Some(tc) => a.with_key(ktc.as_slice(), tc),
            None => a.clone_value(),
        }
    } else {
        a.clone_value()
    };
    let tcc = match a1.get(ktc.as_slice()) {
        Some(tc) => Some(compact_tool_call(tc)),
        None => None,
    };
    let a2 = match tcc {
        Some(c) => a1.with_key(ktc.as_slice(), c),
        None => a1,
    };
    let kpartial = vec![0x70u8, 0x61, 0x72, 0x74, 0x69, 0x61, 0x6c];
    assert(kpartial@ =~= key_partial());
    a2.without_key(kpartial.as_slice())
}

fn compact_message_update(e: &Json) -> (r: Json)
    ensures
        r@ == sp_message_update(e@),
{
    let role = role_field(e);
    let kassist = vec![
        0x61u8, 0x73, 0x73, 0x69, 0x73, 0x74, 0x61, 0x6e, 0x74, 0x4d, 0x65, 0x73, 0x73, 0x61,
        0x67, 0x65, 0x45, 0x76, 0x65, 0x6e, 0x74,
    ];
    assert(kassist@ =~= key_assistant());
    let ame = if matches!(e, Json::Obj(_)) {
        match e.get(kassist.as_slice()) {
            Some(a) => compact_assistant(a),
            None => empty_obj(),
        }
    } else {
        empty_obj()
    };
    let mut mpairs: Vec<(Vec<u8>, Json)> = Vec::new();
    proof {
        lemma_jview_pairs(mpairs@);
        assert(jview_pairs(mpairs@) =~= Seq::<(Seq<u8>, JsonV)>::empty());
    }
    let krole = vec![0x72u8, 0x6f, 0x6c, 0x65];
    assert(krole@ =~= key_role());
    push_pair(&mut mpairs, krole, Json::Str(role));
    let mut pairs: Vec<(Vec<u8>, Json)> = Vec::new();
    proof {
        lemma_jview_pairs(pairs@);
        assert(jview_pairs(pairs@) =~= Seq::<(Seq<u8>, JsonV)>::empty());
    }
    let ktype = vec![0x74u8, 0x79, 0x70, 0x65];
    assert(ktype@ =~= key_type());
    let tag = vec![
        0x6du8, 0x65, 0x73, 0x73, 0x61, 0x67, 0x65, 0x5f, 0x75, 0x70, 0x64, 0x61, 0x74, 0x65,
    ];
    assert(tag@ =~= crate::coalesce::tag_message_update());
    push_pair(&mut pairs, ktype, Json::Str(tag));
    let kmsg = vec![0x6du8, 0x65, 0x73, 0x73, 0x61, 0x67, 0x65];
    assert(kmsg@ =~= key_message());
    push_pair(&mut pairs, kmsg, Json::Obj(mpairs));
    push_pair(&mut pairs, kassist, ame);
    let r = Json::Obj(pairs);
    assert(jview_pairs(pairs@) =~= sp_message_update(e@)->Obj_0);
    r
}

fn compact_message_end(e: &Json) -> (r: Json)
    ensures
        r@ == sp_message_end(e@),
{
    let role = role_field(e);
    let mut mpairs: Vec<(Vec<u8>, Json)> = Vec::new();
    proof {
        lemma_jview_pairs(mpairs@);
        assert(jview_pairs(mpairs@) =~= Seq::<(Seq<u8>, JsonV)>::empty());
    }
    let krole = vec![0x72u8, 0x6f, 0x6c, 0x65];
    assert(krole@ =~= key_role());
    push_pair(&mut mpairs, krole, Json::Str(role));
    let kmsg = vec![0x6du8, 0x65, 0x73, 0x73, 0x61, 0x67, 0x65];
    assert(kmsg@ =~= key_message());
    if let Some(m) = e.get(kmsg.as_slice()) {
        let ksr = vec![0x73u8, 0x74, 0x6f, 0x70, 0x52, 0x65, 0x61, 0x73, 0x6f, 0x6e];
        assert(ksr@ =~= key_stop_reason());
        if let Some(Json::Str(sr)) = m.get(ksr.as_slice()) {
            let srv = EventHandler::clone_bytes(sr);
            push_pair(&mut mpairs, ksr, Json::Str(srv));
        }
        let kem = vec![0x65u8, 0x72, 0x72, 0x6f, 0x72, 0x4d, 0x65, 0x73, 0x73, 0x61, 0x67, 0x65];
        assert(kem@ =~= key_error_message());
        if let Some(Json::Str(em)) = m.get(kem.as_slice()) {
            let emv = EventHandler::clone_bytes(em);
            push_pair(&mut mpairs, kem, Json::Str(emv));
        }
    }
    let mut pairs: Vec<(Vec<u8>, Json)> = Vec::new();
    proof {
        lemma_jview_pairs(pairs@);
        assert(jview_pairs(pairs@) =~= Seq::<(Seq<u8>, JsonV)>::empty());
    }
    let ktype = vec![0x74u8, 0x79, 0x70, 0x65];
    assert(ktype@ =~= key_type());
    let tag = vec![0x6du8, 0x65, 0x73, 0x73, 0x61, 0x67, 0x65, 0x5f, 0x65, 0x6e, 0x64];
    assert(tag@ =~= tag_message_end());
    push_pair(&mut pairs, ktype, Json::Str(tag));
    push_pair(&mut pairs, kmsg, Json::Obj(mpairs));
    let r = Json::Obj(pairs);
    assert(jview_pairs(pairs@) =~= sp_message_end(e@)->Obj_0);
    r
}

/// The per-discriminator compaction of one session event.
pub fn compact_session_event_for_frontend(e: &Json) -> (r: Json)
    ensures
        r@ == sp_compact_session_event(e@),
{
    let ktype = vec![0x74u8, 0x79, 0x70, 0x65];
    assert(ktype@ =~= key_type());
    let t = match e.get(ktype.as_slice()) {
        Some(Json::Str(t)) => t,
        _ => {
            return compact_json_value(e, 0);
        },
    };
    let tag_as = vec![0x61u8, 0x67, 0x65, 0x6e, 0x74, 0x5f, 0x73, 0x74, 0x61, 0x72, 0x74];
    assert(tag_as@ =~= tag_agent_start());
    let tag_ae = vec![0x61u8, 0x67, 0x65, 0x6e, 0x74, 0x5f, 0x65, 0x6e, 0x64];
    assert(tag_ae@ =~= tag_agent_end());
    let tag_ts = vec![0x74u8, 0x75, 0x72, 0x6e, 0x5f, 0x73, 0x74, 0x61, 0x72, 0x74];
    assert(tag_ts@ =~= tag_turn_start());
    let tag_te = vec![0x74u8, 0x75, 0x72, 0x6e, 0x5f, 0x65, 0x6e, 0x64];
    assert(tag_te@ =~= tag_turn_end());
    if bytes_eq(t.as_slice(), tag_as.as_slice()) || bytes_eq(t.as_slice(), tag_ae.as_slice())
        || bytes_eq(t.as_slice(), tag_ts.as_slice()) || bytes_eq(
        t.as_slice(),
        tag_te.as_slice(),
    ) {
        let mut pairs: Vec<(Vec<u8>, Json)> = Vec::new();
        proof {
            lemma_jview_pairs(pairs@);
            assert(jview_pairs(pairs@) =~= Seq::<(Seq<u8>, JsonV)>::empty());
        }
        let tv = EventHandler::clone_bytes(t);
        push_pair(&mut pairs, ktype, Json::Str(tv));
        let r = Json::Obj(pairs);
        assert(jview_pairs(pairs@) =~= seq![(key_type(), JsonV::Str(t@))]);
        return r;
    }
    let tag_mu = vec![
        0x6du8, 0x65, 0x73, 0x73, 0x61, 0x67, 0x65, 0x5f, 0x75, 0x70, 0x64, 0x61, 0x74, 0x65,
    ];
    assert(tag_mu@ =~= crate::coalesce::tag_message_update());
    if bytes_eq(t.as_slice(), tag_mu.as_slice()) {
        return compact_message_update(e);
    }
    let tag_s = vec![
        0x74u8, 0x6f, 0x6f, 0x6c, 0x5f, 0x65, 0x78, 0x65, 0x63, 0x75, 0x74, 0x69, 0x6f, 0x6e,
        0x5f, 0x73, 0x74, 0x61, 0x72, 0x74,
    ];
    assert(tag_s@ =~= tag_tes());
    if bytes_eq(t.as_slice(), tag_s.as_slice()) {
        return compact_tool_execution_start_event(e);
    }
    let tag_u = vec![
        0x74u8, 0x6f, 0x6f, 0x6c, 0x5f, 0x65, 0x78, 0x65, 0x63, 0x75, 0x74, 0x69, 0x6f, 0x6e,
        0x5f, 0x75, 0x70, 0x64, 0x61, 0x74, 0x65,
    ];
    assert(tag_u@ =~= tag_teu());
    if bytes_eq(t.as_slice(), tag_u.as_slice()) {
        return compact_tool_execution_update_event(e);
    }
    let tag_e = vec![
        0x74u8, 0x6f, 0x6f, 0x6c, 0x5f, 0x65, 0x78, 0x65, 0x63, 0x75, 0x74, 0x69, 0x6f, 0x6e,
        0x5f, 0x65, 0x6e, 0x64,
    ];
    assert(tag_e@ =~= tag_tee());
    if bytes_eq(t.as_slice(), tag_e.as_slice()) {
        return compact_tool_execution_end_event(e);
    }
    let tag_me = vec![0x6du8, 0x65, 0x73, 0x73, 0x61, 0x67, 0x65, 0x5f, 0x65, 0x6e, 0x64];
    assert(tag_me@ =~= tag_message_end());
    if bytes_eq(t.as_slice(), tag_me.as_slice()) {
        return compact_message_end(e);
    }
    compact_json_value(e, 0)
}


pub open spec fn key_models() -> Seq<u8> {
    // models
    seq![0x6d, 0x6f, 0x64, 0x65, 0x6c, 0x73]
}

pub open spec fn key_supports_image() -> Seq<u8> {
    // supportsImageInput
    seq![
        0x73, 0x75, 0x70, 0x70, 0x6f, 0x72, 0x74, 0x73, 0x49, 0x6d, 0x61, 0x67, 0x65, 0x49,
        0x6e, 0x70, 0x75, 0x74,
    ]
}

/// One model entry normalized for the UI: provider and id are required
/// strings (anything else drops the entry), the display name defaults to
/// the id, image support defaults to off.
pub open spec fn sp_norm_model(m: JsonV) -> Option<JsonV> {
    match (jget(m, crate::types::key_provider()), jget(m, key_id())) {
        (Some(JsonV::Str(p)), Some(JsonV::Str(id))) => Some(
            JsonV::Obj(
                seq![
                    (crate::types::key_provider(), JsonV::Str(p)),
                    (key_id(), JsonV::Str(id)),
                    (
                        key_name(),
                        JsonV::Str(
                            match jget(m, key_name()) {
                                Some(JsonV::Str(n)) => n,
                                _ => id,
                            },
                        ),
                    ),
                    (
                        key_supports_image(),
                        JsonV::Bool(
                            match jget(m, key_supports_image()) {
                                Some(JsonV::Bool(b)) => b,
                                _ => false,
                            },
                        ),
                    ),
                ],
            ),
        ),
        _ => None,
    }
}

/// The normalized entries, in order, malformed ones dropped.
pub open spec fn sp_norm_models(items: Seq<JsonV>) -> Seq<JsonV>
    decreases items.len(),
{
    if items.len() == 0 {
        Seq::empty()
    } else {
        let rest = sp_norm_models(items.drop_last());
        match sp_norm_model(items.last()) {
            Some(c) => rest.push(c),
            None => rest,
        }
    }
}

/// A get-available-models response's data, normalized: `{models: [...]}`
/// with exactly the well-formed entries; a missing or non-array `models`
/// reads as none.
pub open spec fn sp_compact_models(d: JsonV) -> JsonV {
    let ms = match jget(d, key_models()) {
        Some(JsonV::Arr(items)) => sp_norm_models(items),
        _ => Seq::empty(),
    };
    JsonV::Obj(seq![(key_models(), JsonV::Arr(ms))])
}

fn norm_model(m: &Json) -> (r: Option<Json>)
    ensures
        match r {
            Some(c) => sp_norm_model(m@) == Some(c@),
            None => sp_norm_model(m@) is None,
        },
{
    let kprov = vec![0x70u8, 0x72, 0x6f, 0x76, 0x69, 0x64, 0x65, 0x72];
    assert(kprov@ =~= crate::types::key_provider());
    let p = match m.get(kprov.as_slice()) {
        Some(Json::Str(t)) => EventHandler::clone_bytes(t),
        _ => {
            return None;
        },
    };
    let kid = vec![0x69u8, 0x64];
    assert(kid@ =~= key_id());
    let id = match m.get(kid.as_slice()) {
        Some(Json::Str(t)) => EventHandler::clone_bytes(t),
        _ => {
            return None;
        },
    };
    let kname = vec![0x6eu8, 0x61, 0x6d, 0x65];
    assert(kname@ =~= key_name());
    let name = match m.get(kname.as_slice()) {
        Some(Json::Str(t)) => EventHandler::clone_bytes(t),
        _ => EventHandler::clone_bytes(&id),
    };
    let ksup = vec![
        0x73u8, 0x75, 0x70, 0x70, 0x6f, 0x72, 0x74, 0x73, 0x49, 0x6d, 0x61, 0x67, 0x65, 0x49,
        0x6e, 0x70, 0x75, 0x74,
    ];
    assert(ksup@ =~= key_supports_image());
    let supports = match m.get(ksup.as_slice()) {
        Some(Json::Bool(b)) => *b,
        _ => false,
    };
    let mut pairs: Vec<(Vec<u8>, Json)> = Vec::new();
    proof {
        lemma_jview_pairs(pairs@);
        assert(jview_pairs(pairs@) =~= Seq::<(Seq<u8>, JsonV)>::empty());
    }
    push_pair(&mut pairs, kprov, Json::Str(p));
    push_pair(&mut pairs, kid, Json::Str(id));
    push_pair(&mut pairs, kname, Json::Str(name));
    push_pair(&mut pairs, ksup, Json::Bool(supports));
    let r = Json::Obj(pairs);
    assert(jview_pairs(pairs@) =~= sp_norm_model(m@)->0->Obj_0);
    Some(r)
}

/// Normalizes a get-available-models response's data for the UI, keeping
/// the IPC payload compact whatever shape the worker returned.
#[verifier::loop_isolation(false)]
pub fn compact_available_models(data: &Json) -> (r: Json)
    ensures
        r@ == sp_compact_models(data@),
{
    let kmodels = vec![0x6du8, 0x6f, 0x64, 0x65, 0x6c, 0x73];
    assert(kmodels@ =~= key_models());
    let mut out: Vec<Json> = Vec::new();
    proof {
        lemma_jview_seq(out@);
    }
    match data.get(kmodels.as_slice()) {
        Some(Json::Arr(items)) => {
            proof {
                lemma_jview_seq(items@);
            }
            let ghost iv = jview_seq(items@);
            let mut i: usize = 0;
            assert(jview_seq(out@) =~= sp_norm_models(iv.take(0)));
            while i < items.len()
                invariant
                    i <= items@.len(),
                    iv.len() == items@.len(),
                    forall|k: int| 0 <= k < items@.len()
                        ==> #[trigger] iv[k] == crate::json::jview(items@[k]),
                    jview_seq(out@) == sp_norm_models(iv.take(i as int)),
                decreases items@.len() - i,
            {
                proof {
                    assert(iv.take(i + 1).drop_last() =~= iv.take(i as int));
                    assert(iv.take(i + 1).last() == iv[i as int]);
                }
                if let Some(c) = norm_model(&items[i]) {
                    let ghost pre = out@;
                    out.push(c);
                    proof {
                        assert(out@.drop_last() =~= pre);
                        crate::json::lemma_jview_seq_push(pre, out@.last());
                        assert(pre.push(out@.last()) =~= out@);
                    }
                }
                i += 1;
            }
            assert(iv.take(items@.len() as int) =~= iv);
        },
        _ => {
            assert(jview_seq(out@) =~= Seq::<JsonV>::empty());
        },
    }
    let mut pairs: Vec<(Vec<u8>, Json)> = Vec::new();
    proof {
        lemma_jview_pairs(pairs@);
        assert(jview_pairs(pairs@) =~= Seq::<(Seq<u8>, JsonV)>::empty());
    }
    push_pair(&mut pairs, kmodels, Json::Arr(out));
    let r = Json::Obj(pairs);
    assert(jview_pairs(pairs@) =~= sp_compact_models(data@)->Obj_0);
    r
}

} // verus!

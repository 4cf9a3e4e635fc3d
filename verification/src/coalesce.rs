//! Coalescing of rapid incremental text deltas.
//!
//! Text and thinking deltas arrive far faster than a UI needs them. They are
//! buffered per session; a new delta whose kind and content slot match the
//! last buffered entry is concatenated onto it, anything else starts a new
//! entry. A buffer is flushed when a non-delta event for its session is
//! about to go out (order is preserved), or when the flush interval has
//! passed. Coalescing only ever merges neighbouring same-slot deltas; it
//! never reorders an event past another.

use vstd::prelude::*;

use crate::json::{Json, JsonV, jget, jview, jview_seq, lemma_jview_seq, lemma_jview_seq_push,
    obj_set, lemma_obj_set_get, bytes_eq};
use crate::types::key_type;

verus! {

broadcast use vstd::seq::group_seq_axioms;

pub open spec fn key_assistant() -> Seq<u8> {
    // assistantMessageEvent
    seq![
        0x61, 0x73, 0x73, 0x69, 0x73, 0x74, 0x61, 0x6e, 0x74, 0x4d, 0x65, 0x73, 0x73, 0x61,
        0x67, 0x65, 0x45, 0x76, 0x65, 0x6e, 0x74,
    ]
}

pub open spec fn key_content_index() -> Seq<u8> {
    // contentIndex
    seq![0x63, 0x6f, 0x6e, 0x74, 0x65, 0x6e, 0x74, 0x49, 0x6e, 0x64, 0x65, 0x78]
}

pub open spec fn key_delta() -> Seq<u8> {
    // delta
    seq![0x64, 0x65, 0x6c, 0x74, 0x61]
}

pub open spec fn tag_message_update() -> Seq<u8> {
    // message_update
    seq![0x6d, 0x65, 0x73, 0x73, 0x61, 0x67, 0x65, 0x5f, 0x75, 0x70, 0x64, 0x61, 0x74, 0x65]
}

pub open spec fn tag_text_delta() -> Seq<u8> {
    // text_delta
    seq![0x74, 0x65, 0x78, 0x74, 0x5f, 0x64, 0x65, 0x6c, 0x74, 0x61]
}

pub open spec fn tag_thinking_delta() -> Seq<u8> {
    // thinking_delta
    seq![
        0x74, 0x68, 0x69, 0x6e, 0x6b, 0x69, 0x6e, 0x67, 0x5f, 0x64, 0x65, 0x6c, 0x74, 0x61,
    ]
}

/// The coalescing key of an event: its delta kind and content slot, defined
/// exactly for `message_update` events whose assistant event is a text or
/// thinking delta with an integer content index.
pub open spec fn delta_key(e: JsonV) -> Option<(Seq<u8>, int)> {
    match jget(e, key_type()) {
        Some(JsonV::Str(t)) => if t == tag_message_update() {
            match jget(e, key_assistant()) {
                Some(a) => match jget(a, key_type()) {
                    Some(JsonV::Str(dt)) => if dt == tag_text_delta() || dt
                        == tag_thinking_delta() {
                        match jget(a, key_content_index()) {
                            Some(JsonV::Int(i)) => Some((dt, i)),
                            _ => None,
                        }
                    } else {
                        None
                    },
                    _ => None,
                },
                None => None,
            }
        } else {
            None
        },
        _ => None,
    }
}

/// The delta fragment an event carries (empty when none).
pub open spec fn delta_text(e: JsonV) -> Seq<u8> {
    match jget(e, key_assistant()) {
        Some(a) => match jget(a, key_delta()) {
            Some(JsonV::Str(t)) => t,
            _ => Seq::empty(),
        },
        None => Seq::empty(),
    }
}

/// `target` with `source`'s fragment concatenated onto its own.
pub open spec fn sp_append_delta(target: JsonV, source: JsonV) -> JsonV {
    match jget(target, key_assistant()) {
        Some(a) => {
            let combined = delta_text(target) + delta_text(source);
            let na = match a {
                JsonV::Obj(ap) => JsonV::Obj(obj_set(ap, key_delta(), JsonV::Str(combined))),
                _ => a,
            };
            match target {
                JsonV::Obj(tp) => JsonV::Obj(obj_set(tp, key_assistant(), na)),
                _ => target,
            }
        },
        None => target,
    }
}

/// One delta joining a session's buffer: merged onto a matching last entry,
/// appended otherwise.
pub open spec fn sp_queue_delta(q: Seq<JsonV>, e: JsonV) -> Seq<JsonV> {
    if q.len() > 0 && delta_key(q.last()) == delta_key(e) {
        q.drop_last().push(sp_append_delta(q.last(), e))
    } else {
        q.push(e)
    }
}

/// The buffers as an association list, session order preserved.
pub open spec fn assoc_get(m: Seq<(Seq<u8>, Seq<JsonV>)>, sid: Seq<u8>) -> Option<Seq<JsonV>>
    decreases m.len(),
{
    if m.len() == 0 {
        None
    } else if m[0].0 == sid {
        Some(m[0].1)
    } else {
        assoc_get(m.drop_first(), sid)
    }
}

pub open spec fn assoc_queue(m: Seq<(Seq<u8>, Seq<JsonV>)>, sid: Seq<u8>, e: JsonV) -> Seq<
    (Seq<u8>, Seq<JsonV>),
>
    decreases m.len(),
{
    if m.len() == 0 {
        seq![(sid, seq![e])]
    } else if m[0].0 == sid {
        seq![(m[0].0, sp_queue_delta(m[0].1, e))] + m.drop_first()
    } else {
        seq![m[0]] + assoc_queue(m.drop_first(), sid, e)
    }
}

pub open spec fn assoc_remove(m: Seq<(Seq<u8>, Seq<JsonV>)>, sid: Seq<u8>) -> Seq<
    (Seq<u8>, Seq<JsonV>),
>
    decreases m.len(),
{
    if m.len() == 0 {
        m
    } else if m[0].0 == sid {
        m.drop_first()
    } else {
        seq![m[0]] + assoc_remove(m.drop_first(), sid)
    }
}

/// Buffers rapid deltas per (session, delta kind, content slot).
pub struct SessionDeltaCoalescer {
    pub pending: Vec<(Vec<u8>, Vec<Json>)>,
    pub flush_interval_ms: u64,
    pub last_flush_ms: u64,
}

impl View for SessionDeltaCoalescer {
    type V = Seq<(Seq<u8>, Seq<JsonV>)>;

    open spec fn view(&self) -> Seq<(Seq<u8>, Seq<JsonV>)> {
        self.pending@.map_values(|p: (Vec<u8>, Vec<Json>)| (p.0@, jview_seq(p.1@)))
    }
}

impl SessionDeltaCoalescer {
    pub open spec fn interval(&self) -> u64 {
        self.flush_interval_ms
    }

    pub open spec fn last_flush(&self) -> u64 {
        self.last_flush_ms
    }

    pub fn new(flush_interval_ms: u64, now_ms: u64) -> (r: SessionDeltaCoalescer)
        ensures
            r@ == Seq::<(Seq<u8>, Seq<JsonV>)>::empty(),
            r.interval() == flush_interval_ms,
            r.last_flush() == now_ms,
    {
        let r = SessionDeltaCoalescer {
            pending: Vec::new(),
            flush_interval_ms,
            last_flush_ms: now_ms,
        };
        proof {
            assert(r@ =~= Seq::<(Seq<u8>, Seq<JsonV>)>::empty());
        }
        r
    }

    /// The coalescing key, when the event is a delta at all.
    pub fn delta_event_key(event: &Json) -> (r: Option<(Vec<u8>, i64)>)
        ensures
            match r {
                Some((dt, i)) => delta_key(event@) == Some((dt@, i as int)),
                None => delta_key(event@) is None,
            },
    {
        let ktype = vec![0x74u8, 0x79, 0x70, 0x65];
        assert(ktype@ =~= key_type());
        match event.get(ktype.as_slice()) {
            Some(Json::Str(t)) => {
                let tag_mu = vec![
                    0x6du8, 0x65, 0x73, 0x73, 0x61, 0x67, 0x65, 0x5f, 0x75, 0x70, 0x64, 0x61,
                    0x74, 0x65,
                ];
                assert(tag_mu@ =~= tag_message_update());
                if !bytes_eq(t.as_slice(), tag_mu.as_slice()) {
                    return None;
                }
                let kassist = vec![
                    0x61u8, 0x73, 0x73, 0x69, 0x73, 0x74, 0x61, 0x6e, 0x74, 0x4d, 0x65, 0x73,
                    0x73, 0x61, 0x67, 0x65, 0x45, 0x76, 0x65, 0x6e, 0x74,
                ];
                assert(kassist@ =~= key_assistant());
                let a = match event.get(kassist.as_slice()) {
                    Some(a) => a,
                    None => {
                        return None;
                    },
                };
                let ktype2 = vec![0x74u8, 0x79, 0x70, 0x65];
                assert(ktype2@ =~= key_type());
                let dt = match a.get(ktype2.as_slice()) {
                    Some(Json::Str(dt)) => dt,
                    _ => {
                        return None;
                    },
                };
                let tag_td = vec![0x74u8, 0x65, 0x78, 0x74, 0x5f, 0x64, 0x65, 0x6c, 0x74, 0x61];
                assert(tag_td@ =~= tag_text_delta());
                let tag_th = vec![
                    0x74u8, 0x68, 0x69, 0x6e, 0x6b, 0x69, 0x6e, 0x67, 0x5f, 0x64, 0x65, 0x6c,
                    0x74, 0x61,
                ];
                assert(tag_th@ =~= tag_thinking_delta());
                if !bytes_eq(dt.as_slice(), tag_td.as_slice()) && !bytes_eq(
                    dt.as_slice(),
                    tag_th.as_slice(),
                ) {
                    return None;
                }
                let kci = vec![
                    0x63u8, 0x6f, 0x6e, 0x74, 0x65, 0x6e, 0x74, 0x49, 0x6e, 0x64, 0x65, 0x78,
                ];
                assert(kci@ =~= key_content_index());
                match a.get(kci.as_slice()) {
                    Some(Json::Int(i)) => Some(
                        (crate::handler::EventHandler::clone_bytes(dt), *i),
                    ),
                    _ => None,
                }
            },
            _ => None,
        }
    }

    /// Whether an event is subject to coalescing at all.
    pub fn is_delta_event(event: &Json) -> (r: bool)
        ensures
            r == (delta_key(event@) is Some),
    {
        Self::delta_event_key(event).is_some()
    }

    /// The delta fragment an event carries.
    fn delta_text_of(event: &Json) -> (r: Vec<u8>)
        ensures
            r@ == delta_text(event@),
    {
        let kassist = vec![
            0x61u8, 0x73, 0x73, 0x69, 0x73, 0x74, 0x61, 0x6e, 0x74, 0x4d, 0x65, 0x73, 0x73,
            0x61, 0x67, 0x65, 0x45, 0x76, 0x65, 0x6e, 0x74,
        ];
        assert(kassist@ =~= key_assistant());
        match event.get(kassist.as_slice()) {
            Some(a) => {
                let kdelta = vec![0x64u8, 0x65, 0x6c, 0x74, 0x61];
                assert(kdelta@ =~= key_delta());
                match a.get(kdelta.as_slice()) {
                    Some(Json::Str(t)) => crate::handler::EventHandler::clone_bytes(t),
                    _ => Vec::new(),
                }
            },
            None => Vec::new(),
        }
    }

    /// `target` with `source`'s fragment concatenated onto its own.
    pub fn append_delta(target: &Json, source: &Json) -> (r: Json)
        ensures
            r@ == sp_append_delta(target@, source@),
    {
        let kassist = vec![
            0x61u8, 0x73, 0x73, 0x69, 0x73, 0x74, 0x61, 0x6e, 0x74, 0x4d, 0x65, 0x73, 0x73,
            0x61, 0x67, 0x65, 0x45, 0x76, 0x65, 0x6e, 0x74,
        ];
        assert(kassist@ =~= key_assistant());
        let a = match target.get(kassist.as_slice()) {
            Some(a) => a,
            None => {
                return target.clone_value();
            },
        };
        let mut combined = Self::delta_text_of(target);
        let t2 = Self::delta_text_of(source);
        crate::handler::append_bytes(&mut combined, t2.as_slice());
        let kdelta = vec![0x64u8, 0x65, 0x6c, 0x74, 0x61];
        assert(kdelta@ =~= key_delta());
        let na = a.with_key(kdelta.as_slice(), Json::Str(combined));
        let r = target.with_key(kassist.as_slice(), na);
        r
    }

    /// Buffers a delta event; a non-delta event is refused untouched.
    #[verifier::loop_isolation(false)]
    pub fn maybe_queue_delta(&mut self, session_id: &[u8], event: Json) -> (r: bool)
        ensures
            delta_key(event@) is None ==> r == false && final(self)@ == old(self)@,
            delta_key(event@) is Some ==> r == true && final(self)@ == assoc_queue(
                old(self)@,
                session_id@,
                event@,
            ),
            final(self).interval() == old(self).interval(),
            final(self).last_flush() == old(self).last_flush(),
    {
        if Self::delta_event_key(&event).is_none() {
            return false;
        }
        let ghost m0 = self@;
        let mut idx: usize = 0;
        let n = self.pending.len();
        while idx < n
            invariant
                *self == *old(self),
                idx <= n,
                n == self.pending@.len(),
                self@.len() == self.pending@.len(),
                forall|k: int| 0 <= k < self.pending@.len()
                    ==> #[trigger] self@[k] == (self.pending@[k].0@, jview_seq(
                        self.pending@[k].1@,
                    )),
                forall|k: int| 0 <= k < idx ==> self@[k].0 != session_id@,
            decreases n - idx,
        {
            if bytes_eq(self.pending[idx].0.as_slice(), session_id) {
                proof {
                    lemma_assoc_queue_at(self@, session_id@, event@, idx as int);
                }
                let qlen = self.pending[idx].1.len();
                let merge = if qlen > 0 {
                    let lk = Self::delta_event_key(&self.pending[idx].1[qlen - 1]);
                    let ek = Self::delta_event_key(&event);
                    match (lk, ek) {
                        (Some((d1, i1)), Some((d2, i2))) => bytes_eq(
                            d1.as_slice(),
                            d2.as_slice(),
                        ) && i1 == i2,
                        _ => false,
                    }
                } else {
                    false
                };
                let ghost q0 = jview_seq(self.pending@[idx as int].1@);
                proof {
                    lemma_jview_seq(self.pending@[idx as int].1@);
                }
                if merge {
                    let merged = Self::append_delta(&self.pending[idx].1[qlen - 1], &event);
                    let entry = &mut self.pending[idx];
                    let ghost qv = entry.1@;
                    entry.1[qlen - 1] = merged;
                    proof {
                        lemma_jview_seq(entry.1@);
                        lemma_jview_seq(qv);
                        assert(qv.drop_last() =~= entry.1@.drop_last());
                        assert(jview_seq(entry.1@) =~= q0.drop_last().push(
                            sp_append_delta(q0.last(), event@),
                        )) by {
                            lemma_jview_seq_drop_last(qv);
                            lemma_jview_seq_drop_last(entry.1@);
                        }
                        assert(jview_seq(entry.1@) =~= sp_queue_delta(q0, event@));
                    }
                } else {
                    let entry = &mut self.pending[idx];
                    let ghost qv = entry.1@;
                    entry.1.push(event);
                    proof {
                        assert(entry.1@.drop_last() =~= qv);
                        lemma_jview_seq_push(qv, entry.1@.last());
                        assert(qv.push(entry.1@.last()) =~= entry.1@);
                        assert(jview_seq(entry.1@) =~= sp_queue_delta(q0, event@)) by {
                            lemma_jview_seq(qv);
                        }
                    }
                }
                proof {
                    assert(self@ =~= assoc_queue(m0, session_id@, event@));
                }
                return true;
            }
            idx += 1;
        }
        let sid = crate::json::copy_range(session_id, 0, session_id.len());
        assert(sid@ =~= session_id@);
        let mut q: Vec<Json> = Vec::new();
        q.push(event);
        proof {
            assert(q@.drop_last() =~= Seq::<Json>::empty());
            assert(jview_seq(Seq::<Json>::empty()) =~= Seq::<JsonV>::empty());
            assert(jview_seq(q@) =~= seq![jview(q@.last())]);
        }
        let ghost pv = self.pending@;
        self.pending.push((sid, q));
        proof {
            lemma_assoc_queue_missing(m0, session_id@, event@);
            assert(self@ =~= m0.push((session_id@, seq![event@])));
        }
        true
    }

    /// Releases one session's buffered events, oldest first; a flush that
    /// released anything restarts the interval clock.
    #[verifier::loop_isolation(false)]
    pub fn flush_session(&mut self, session_id: &[u8], now_ms: u64) -> (r: Vec<Json>)
        ensures
            jview_seq(r@) == match assoc_get(old(self)@, session_id@) {
                Some(q) => q,
                None => Seq::<JsonV>::empty(),
            },
            final(self)@ == assoc_remove(old(self)@, session_id@),
            final(self).interval() == old(self).interval(),
            final(self).last_flush() == match assoc_get(old(self)@, session_id@) {
                Some(q) => now_ms,
                None => old(self).last_flush(),
            },
    {
        let ghost m0 = self@;
        let mut idx: usize = 0;
        let n = self.pending.len();
        while idx < n
            invariant
                *self == *old(self),
                idx <= n,
                n == self.pending@.len(),
                self@.len() == self.pending@.len(),
                forall|k: int| 0 <= k < self.pending@.len()
                    ==> #[trigger] self@[k] == (self.pending@[k].0@, jview_seq(
                        self.pending@[k].1@,
                    )),
                forall|k: int| 0 <= k < idx ==> self@[k].0 != session_id@,
            decreases n - idx,
        {
            if bytes_eq(self.pending[idx].0.as_slice(), session_id) {
                proof {
                    lemma_assoc_remove_at(m0, session_id@, idx as int);
                    lemma_assoc_get_at(m0, session_id@, idx as int);
                }
                let entry = self.pending.remove(idx);
                self.last_flush_ms = now_ms;
                proof {
                    assert(self@ =~= assoc_remove(m0, session_id@));
                }
                return entry.1;
            }
            idx += 1;
        }
        proof {
            lemma_assoc_missing(m0, session_id@);
            assert(self@ =~= assoc_remove(m0, session_id@));
        }
        let r = Vec::new();
        proof {
            assert(jview_seq(r@) =~= Seq::<JsonV>::empty());
        }
        r
    }

    /// Releases every buffered event, sessions in arrival order.
    pub fn flush_all(&mut self, now_ms: u64) -> (r: Vec<(Vec<u8>, Vec<Json>)>)
        ensures
            r@.map_values(|p: (Vec<u8>, Vec<Json>)| (p.0@, jview_seq(p.1@))) == old(self)@,
            final(self)@ == Seq::<(Seq<u8>, Seq<JsonV>)>::empty(),
            final(self).interval() == old(self).interval(),
            final(self).last_flush() == now_ms,
    {
        let mut out: Vec<(Vec<u8>, Vec<Json>)> = Vec::new();
        core::mem::swap(&mut out, &mut self.pending);
        self.last_flush_ms = now_ms;
        proof {
            assert(self@ =~= Seq::<(Seq<u8>, Seq<JsonV>)>::empty());
        }
        out
    }

    /// Flushes everything once the interval has passed; otherwise nothing.
    pub fn flush_due(&mut self, now_ms: u64) -> (r: Option<Vec<(Vec<u8>, Vec<Json>)>>)
        ensures
            match r {
                Some(out) => old(self)@.len() > 0 && now_ms >= old(self).last_flush()
                    && now_ms - old(self).last_flush() >= old(self).interval() && out@.map_values(
                    |p: (Vec<u8>, Vec<Json>)| (p.0@, jview_seq(p.1@)),
                ) == old(self)@ && final(self)@ == Seq::<(Seq<u8>, Seq<JsonV>)>::empty()
                    && final(self).last_flush() == now_ms,
                None => *final(self) == *old(self) && (old(self)@.len() == 0 || now_ms < old(
                    self,
                ).last_flush() || now_ms - old(self).last_flush() < old(self).interval()),
            },
            final(self).interval() == old(self).interval(),
    {
        if self.pending.len() == 0 {
            assert(self@.len() == 0);
            return None;
        }
        assert(self@.len() > 0);
        if now_ms >= self.last_flush_ms && now_ms - self.last_flush_ms >= self.flush_interval_ms {
            Some(self.flush_all(now_ms))
        } else {
            None
        }
    }
}

/// `jview_seq` commutes with `drop_last`.
proof fn lemma_jview_seq_drop_last(s: Seq<Json>)
    ensures
        s.len() > 0 ==> jview_seq(s).drop_last() == jview_seq(s.drop_last()),
{
    if s.len() > 0 {
        assert(jview_seq(s).drop_last() =~= jview_seq(s.drop_last()));
    }
}

/// `assoc_queue` at a known position is a pointwise update.
proof fn lemma_assoc_queue_at(m: Seq<(Seq<u8>, Seq<JsonV>)>, sid: Seq<u8>, e: JsonV, idx: int)
    requires
        0 <= idx < m.len(),
        m[idx].0 == sid,
        forall|k: int| 0 <= k < idx ==> m[k].0 != sid,
    ensures
        assoc_queue(m, sid, e) == m.update(idx, (sid, sp_queue_delta(m[idx].1, e))),
    decreases m.len(),
{
    if m[0].0 == sid {
        assert(idx == 0);
        assert(seq![(m[0].0, sp_queue_delta(m[0].1, e))] + m.drop_first() =~= m.update(
            0,
            (sid, sp_queue_delta(m[0].1, e)),
        ));
    } else {
        lemma_assoc_queue_at(m.drop_first(), sid, e, idx - 1);
        assert(seq![m[0]] + assoc_queue(m.drop_first(), sid, e) =~= m.update(
            idx,
            (sid, sp_queue_delta(m[idx].1, e)),
        ));
    }
}

/// `assoc_queue` of an unknown session appends a fresh entry.
proof fn lemma_assoc_queue_missing(m: Seq<(Seq<u8>, Seq<JsonV>)>, sid: Seq<u8>, e: JsonV)
    requires
        forall|k: int| 0 <= k < m.len() ==> m[k].0 != sid,
    ensures
        assoc_queue(m, sid, e) == m.push((sid, seq![e])),
    decreases m.len(),
{
    if m.len() == 0 {
        assert(seq![(sid, seq![e])] =~= m.push((sid, seq![e])));
    } else {
        lemma_assoc_queue_missing(m.drop_first(), sid, e);
        assert(seq![m[0]] + assoc_queue(m.drop_first(), sid, e) =~= m.push((sid, seq![e])));
    }
}

/// `assoc_remove` at a known position removes exactly that entry.
proof fn lemma_assoc_remove_at(m: Seq<(Seq<u8>, Seq<JsonV>)>, sid: Seq<u8>, idx: int)
    requires
        0 <= idx < m.len(),
        m[idx].0 == sid,
        forall|k: int| 0 <= k < idx ==> m[k].0 != sid,
    ensures
        assoc_remove(m, sid) == m.remove(idx),
    decreases m.len(),
{
    if m[0].0 == sid {
        assert(idx == 0);
        assert(m.drop_first() =~= m.remove(0));
    } else {
        lemma_assoc_remove_at(m.drop_first(), sid, idx - 1);
        assert(seq![m[0]] + assoc_remove(m.drop_first(), sid) =~= m.remove(idx));
    }
}

/// `assoc_get` at a known position finds that queue.
proof fn lemma_assoc_get_at(m: Seq<(Seq<u8>, Seq<JsonV>)>, sid: Seq<u8>, idx: int)
    requires
        0 <= idx < m.len(),
        m[idx].0 == sid,
        forall|k: int| 0 <= k < idx ==> m[k].0 != sid,
    ensures
        assoc_get(m, sid) == Some(m[idx].1),
    decreases m.len(),
{
    if m[0].0 != sid {
        lemma_assoc_get_at(m.drop_first(), sid, idx - 1);
    }
}

/// An unknown session has no buffer, and removing it changes nothing.
proof fn lemma_assoc_missing(m: Seq<(Seq<u8>, Seq<JsonV>)>, sid: Seq<u8>)
    requires
        forall|k: int| 0 <= k < m.len() ==> m[k].0 != sid,
    ensures
        assoc_get(m, sid) is None,
        assoc_remove(m, sid) == m,
    decreases m.len(),
{
    if m.len() > 0 {
        lemma_assoc_missing(m.drop_first(), sid);
        assert(seq![m[0]] + assoc_remove(m.drop_first(), sid) =~= m);
    }
}

// ---------------------------------------------------------------------------
// Coalescing preserves text
// ---------------------------------------------------------------------------

/// A run of same-key deltas folded into an empty buffer.
pub open spec fn queue_fold(events: Seq<JsonV>) -> Seq<JsonV>
    decreases events.len(),
{
    if events.len() == 0 {
        Seq::empty()
    } else {
        sp_queue_delta(queue_fold(events.drop_last()), events.last())
    }
}

/// The concatenation of every fragment, in order.
pub open spec fn texts_concat(events: Seq<JsonV>) -> Seq<u8>
    decreases events.len(),
{
    if events.len() == 0 {
        Seq::empty()
    } else {
        texts_concat(events.drop_last()) + delta_text(events.last())
    }
}

/// Merging keeps the coalescing key and concatenates the fragments.
proof fn lemma_append_delta_props(t: JsonV, s: JsonV, k: (Seq<u8>, int))
    requires
        delta_key(t) == Some(k),
        delta_key(s) == Some(k),
    ensures
        delta_key(sp_append_delta(t, s)) == Some(k),
        delta_text(sp_append_delta(t, s)) == delta_text(t) + delta_text(s),
{
    let a = jget(t, key_assistant())->0;
    let ap = a->Obj_0;
    let combined = delta_text(t) + delta_text(s);
    let na = JsonV::Obj(obj_set(ap, key_delta(), JsonV::Str(combined)));
    lemma_obj_set_get(ap, key_delta(), JsonV::Str(combined), key_type());
    lemma_obj_set_get(ap, key_delta(), JsonV::Str(combined), key_content_index());
    let tp = t->Obj_0;
    lemma_obj_set_get(tp, key_assistant(), na, key_type());
}

/// Coalescing a run of same-kind, same-slot deltas yields one event whose
/// fragment is the concatenation of all their fragments, in order — exactly
/// what emitting them one by one and concatenating on the other side would
/// have produced.
pub proof fn lemma_coalescing_concat(events: Seq<JsonV>, k: (Seq<u8>, int))
    requires
        events.len() > 0,
        forall|i: int| 0 <= i < events.len() ==> delta_key(#[trigger] events[i]) == Some(k),
    ensures
        queue_fold(events).len() == 1,
        delta_key(queue_fold(events)[0]) == Some(k),
        delta_text(queue_fold(events)[0]) == texts_concat(events),
    decreases events.len(),
{
    if events.len() == 1 {
        assert(queue_fold(events.drop_last()).len() == 0);
        assert(queue_fold(events) =~= seq![events[0]]);
        assert(texts_concat(events.drop_last()) + delta_text(events.last()) =~= delta_text(
            events[0],
        ));
    } else {
        lemma_coalescing_concat(events.drop_last(), k);
        let q = queue_fold(events.drop_last());
        let e = events.last();
        assert(delta_key(e) == Some(k));
        assert(q.last() == q[0]);
        lemma_append_delta_props(q[0], e, k);
        assert(queue_fold(events) =~= seq![sp_append_delta(q[0], e)]);
    }
}

} // verus!

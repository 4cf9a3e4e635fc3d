//! The session state cache: session id → working directory, advisory only.
//!
//! Entries come exclusively from trusted response shapes: a successful
//! create-session response's `{sessionId, cwd}` inserts or overwrites one
//! entry, a successful list-sessions response replaces the whole cache, and
//! a successful close evicts one entry. Anything else — a failed response,
//! a missing field, a field of the wrong shape — leaves the cache exactly
//! as it was; nothing is ever invented.

use vstd::prelude::*;

use crate::json::{Json, JsonV, jget, bytes_eq, copy_range};
use crate::types::{RpcResponse, RespV, key_session_id, key_cwd};

verus! {

broadcast use vstd::seq::group_seq_axioms, vstd::map::group_map_axioms;

pub open spec fn key_sessions() -> Seq<u8> {
    // sessions
    seq![0x73, 0x65, 0x73, 0x73, 0x69, 0x6f, 0x6e, 0x73]
}

/// The cache as a map from session id to working directory.
pub open spec fn cache_map(entries: Seq<(Vec<u8>, Vec<u8>)>) -> Map<Seq<u8>, Seq<u8>>
    decreases entries.len(),
{
    if entries.len() == 0 {
        Map::empty()
    } else {
        cache_map(entries.drop_last()).insert(entries.last().0@, entries.last().1@)
    }
}

/// The one response shape a create-session response updates the cache
/// from: success, with string `sessionId` and `cwd` in its data.
pub open spec fn create_shape(r: RespV) -> Option<(Seq<u8>, Seq<u8>)> {
    if r.success {
        match r.data {
            Some(d) => match (jget(d, key_session_id()), jget(d, key_cwd())) {
                (Some(JsonV::Str(sid)), Some(JsonV::Str(cwd))) => Some((sid, cwd)),
                _ => None,
            },
            None => None,
        }
    } else {
        None
    }
}

/// What a list-sessions response's `sessions` array amounts to: the
/// sessionId → cwd pairs whose fields are strings, in order, a later
/// duplicate winning; entries of any other shape are passed over.
pub open spec fn sessions_map(items: Seq<JsonV>) -> Map<Seq<u8>, Seq<u8>>
    decreases items.len(),
{
    if items.len() == 0 {
        Map::empty()
    } else {
        let m = sessions_map(items.drop_last());
        match (jget(items.last(), key_session_id()), jget(items.last(), key_cwd())) {
            (Some(JsonV::Str(sid)), Some(JsonV::Str(cwd))) => m.insert(sid, cwd),
            _ => m,
        }
    }
}

/// The one response shape a list-sessions response replaces the cache
/// from: success, with a `sessions` array in its data.
pub open spec fn list_shape(r: RespV) -> Option<Seq<JsonV>> {
    if r.success {
        match r.data {
            Some(d) => match jget(d, key_sessions()) {
                Some(JsonV::Arr(items)) => Some(items),
                _ => None,
            },
            None => None,
        }
    } else {
        None
    }
}

/// Session id → working directory, refreshed from trusted response
/// payloads only; advisory, never a source of truth.
pub struct SessionCache {
    pub entries: Vec<(Vec<u8>, Vec<u8>)>,
}

impl View for SessionCache {
    type V = Map<Seq<u8>, Seq<u8>>;

    open spec fn view(&self) -> Map<Seq<u8>, Seq<u8>> {
        cache_map(self.entries@)
    }
}

impl SessionCache {
    /// At most one entry per session id.
    pub open spec fn wf(&self) -> bool {
        forall|i: int, j: int| 0 <= i < j < self.entries@.len()
            ==> self.entries@[i].0@ != self.entries@[j].0@
    }

    pub fn new() -> (r: SessionCache)
        ensures
            r@ == Map::<Seq<u8>, Seq<u8>>::empty(),
            r.wf(),
    {
        let r = SessionCache { entries: Vec::new() };
        proof {
            assert(r.entries@.len() == 0);
        }
        r
    }

    /// How many sessions the cache knows.
    pub fn len(&self) -> (r: usize)
        ensures
            r == self.entries@.len(),
    {
        self.entries.len()
    }

    /// The cached working directory of a session, if any.
    #[verifier::loop_isolation(false)]
    pub fn lookup(&self, session_id: &[u8]) -> (r: Option<&Vec<u8>>)
        requires
            self.wf(),
        ensures
            match r {
                Some(cwd) => self@.contains_key(session_id@) && self@[session_id@] == cwd@,
                None => !self@.contains_key(session_id@),
            },
    {
        let n = self.entries.len();
        let mut idx: usize = 0;
        while idx < n
            invariant
                idx <= n,
                n == self.entries@.len(),
                forall|k: int| 0 <= k < idx ==> self.entries@[k].0@ != session_id@,
            decreases n - idx,
        {
            if bytes_eq(self.entries[idx].0.as_slice(), session_id) {
                proof {
                    lemma_cache_at(self.entries@, idx as int);
                }
                return Some(&self.entries[idx].1);
            }
            idx += 1;
        }
        proof {
            lemma_cache_absent(self.entries@, session_id@);
        }
        None
    }

    /// Inserts or overwrites one entry.
    #[verifier::loop_isolation(false)]
    fn upsert(&mut self, session_id: Vec<u8>, cwd: Vec<u8>)
        requires
            old(self).wf(),
        ensures
            final(self).wf(),
            final(self)@ == old(self)@.insert(session_id@, cwd@),
    {
        let n = self.entries.len();
        let mut idx: usize = 0;
        while idx < n
            invariant
                *self == *old(self),
                idx <= n,
                n == self.entries@.len(),
                forall|k: int| 0 <= k < idx ==> self.entries@[k].0@ != session_id@,
            decreases n - idx,
        {
            if bytes_eq(self.entries[idx].0.as_slice(), session_id.as_slice()) {
                proof {
                    lemma_cache_at(self.entries@, idx as int);
                }
                let mut pair = (session_id, cwd);
                core::mem::swap(&mut pair, &mut self.entries[idx]);
                proof {
                    lemma_cache_update(old(self).entries@, self.entries@, idx as int);
                    assert(self@ =~= old(self)@.insert(pair.0@, self.entries@[idx as int].1@));
                }
                return ;
            }
            idx += 1;
        }
        proof {
            lemma_cache_absent(self.entries@, session_id@);
        }
        self.entries.push((session_id, cwd));
        proof {
            assert(self.entries@.drop_last() =~= old(self).entries@);
        }
    }

    /// Applies a create-session response: a successful one carrying string
    /// `sessionId` and `cwd` inserts or overwrites that one entry; any
    /// other response leaves the cache untouched.
    pub fn apply_create_response(&mut self, resp: &RpcResponse)
        requires
            old(self).wf(),
        ensures
            final(self).wf(),
            final(self)@ == match create_shape(resp@) {
                Some((sid, cwd)) => old(self)@.insert(sid, cwd),
                None => old(self)@,
            },
    {
        if !resp.success {
            return ;
        }
        let d = match &resp.data {
            Some(d) => d,
            None => {
                return ;
            },
        };
        let ksid = vec![0x73u8, 0x65, 0x73, 0x73, 0x69, 0x6f, 0x6e, 0x49, 0x64];
        assert(ksid@ =~= key_session_id());
        let sid = match d.get(ksid.as_slice()) {
            Some(Json::Str(t)) => crate::handler::EventHandler::clone_bytes(t),
            _ => {
                return ;
            },
        };
        let kcwd = vec![0x63u8, 0x77, 0x64];
        assert(kcwd@ =~= key_cwd());
        let cwd = match d.get(kcwd.as_slice()) {
            Some(Json::Str(t)) => crate::handler::EventHandler::clone_bytes(t),
            _ => {
                return ;
            },
        };
        self.upsert(sid, cwd);
    }

    /// Applies a list-sessions response: a successful one carrying a
    /// `sessions` array replaces the whole cache with exactly the
    /// sessionId → cwd pairs whose fields are strings; any other response
    /// leaves the cache untouched.
    #[verifier::loop_isolation(false)]
    pub fn apply_list_response(&mut self, resp: &RpcResponse)
        requires
            old(self).wf(),
        ensures
            final(self).wf(),
            final(self)@ == match list_shape(resp@) {
                Some(items) => sessions_map(items),
                None => old(self)@,
            },
    {
        if !resp.success {
            return ;
        }
        let d = match &resp.data {
            Some(d) => d,
            None => {
                return ;
            },
        };
        let ks = vec![0x73u8, 0x65, 0x73, 0x73, 0x69, 0x6f, 0x6e, 0x73];
        assert(ks@ =~= key_sessions());
        let items = match d.get(ks.as_slice()) {
            Some(Json::Arr(items)) => items,
            _ => {
                return ;
            },
        };
        proof {
            crate::json::lemma_jview_seq(items@);
        }
        let ghost iv = crate::json::jview_seq(items@);
        let mut next = SessionCache::new();
        let mut i: usize = 0;
        assert(next@ =~= sessions_map(iv.take(0)));
        while i < items.len()
            invariant
                i <= items@.len(),
                iv.len() == items@.len(),
                forall|k: int| 0 <= k < items@.len()
                    ==> #[trigger] iv[k] == crate::json::jview(items@[k]),
                next.wf(),
                next@ == sessions_map(iv.take(i as int)),
            decreases items@.len() - i,
        {
            proof {
                assert(iv.take(i + 1).drop_last() =~= iv.take(i as int));
                assert(iv.take(i + 1).last() == iv[i as int]);
            }
            let ksid = vec![0x73u8, 0x65, 0x73, 0x73, 0x69, 0x6f, 0x6e, 0x49, 0x64];
            assert(ksid@ =~= key_session_id());
            let kcwd = vec![0x63u8, 0x77, 0x64];
            assert(kcwd@ =~= key_cwd());
            let entry = &items[i];
            let sid = match entry.get(ksid.as_slice()) {
                Some(Json::Str(t)) => Some(crate::handler::EventHandler::clone_bytes(t)),
                _ => None,
            };
            let cwd = match entry.get(kcwd.as_slice()) {
                Some(Json::Str(t)) => Some(crate::handler::EventHandler::clone_bytes(t)),
                _ => None,
            };
            if let (Some(sid), Some(cwd)) = (sid, cwd) {
                next.upsert(sid, cwd);
            }
            i += 1;
        }
        assert(iv.take(items@.len() as int) =~= iv);
        *self = next;
    }

    /// Evicts one session; the caller does so on a successful close. Every
    /// other entry is untouched.
    #[verifier::loop_isolation(false)]
    pub fn evict(&mut self, session_id: &[u8])
        requires
            old(self).wf(),
        ensures
            final(self).wf(),
            final(self)@ == old(self)@.remove(session_id@),
    {
        let n = self.entries.len();
        let mut idx: usize = 0;
        while idx < n
            invariant
                *self == *old(self),
                idx <= n,
                n == self.entries@.len(),
                forall|k: int| 0 <= k < idx ==> self.entries@[k].0@ != session_id@,
            decreases n - idx,
        {
            if bytes_eq(self.entries[idx].0.as_slice(), session_id) {
                let _ = self.entries.remove(idx);
                proof {
                    lemma_cache_remove(old(self).entries@, self.entries@, idx as int);
                    assert(self@ =~= old(self)@.remove(session_id@));
                }
                return ;
            }
            idx += 1;
        }
        proof {
            lemma_cache_absent(self.entries@, session_id@);
            assert(self@ =~= old(self)@.remove(session_id@));
        }
    }
}

/// A unique entry shows up in the map under its id.
proof fn lemma_cache_at(entries: Seq<(Vec<u8>, Vec<u8>)>, idx: int)
    requires
        0 <= idx < entries.len(),
        forall|i: int, j: int| 0 <= i < j < entries.len() ==> entries[i].0@ != entries[j].0@,
    ensures
        cache_map(entries).contains_key(entries[idx].0@),
        cache_map(entries)[entries[idx].0@] == entries[idx].1@,
    decreases entries.len(),
{
    if idx < entries.len() - 1 {
        lemma_cache_at(entries.drop_last(), idx);
    }
}

/// An id on no entry is not in the map.
proof fn lemma_cache_absent(entries: Seq<(Vec<u8>, Vec<u8>)>, id: Seq<u8>)
    requires
        forall|k: int| 0 <= k < entries.len() ==> entries[k].0@ != id,
    ensures
        !cache_map(entries).contains_key(id),
    decreases entries.len(),
{
    if entries.len() > 0 {
        lemma_cache_absent(entries.drop_last(), id);
    }
}

/// Replacing an entry in place replaces its map binding.
proof fn lemma_cache_update(
    before: Seq<(Vec<u8>, Vec<u8>)>,
    after: Seq<(Vec<u8>, Vec<u8>)>,
    idx: int,
)
    requires
        0 <= idx < before.len(),
        after.len() == before.len(),
        after[idx].0@ == before[idx].0@,
        forall|k: int| 0 <= k < before.len() && k != idx ==> after[k] == before[k],
        forall|i: int, j: int| 0 <= i < j < before.len() ==> before[i].0@ != before[j].0@,
    ensures
        cache_map(after) =~= cache_map(before).insert(before[idx].0@, after[idx].1@),
    decreases before.len(),
{
    if idx == before.len() - 1 {
        assert(after.drop_last() =~= before.drop_last());
    } else {
        lemma_cache_update(before.drop_last(), after.drop_last(), idx);
        assert(after.last() == before.last());
        lemma_cache_at(before, idx);
    }
}

/// Removing an entry removes its map binding and nothing else.
proof fn lemma_cache_remove(
    before: Seq<(Vec<u8>, Vec<u8>)>,
    after: Seq<(Vec<u8>, Vec<u8>)>,
    idx: int,
)
    requires
        0 <= idx < before.len(),
        after == before.remove(idx),
        forall|i: int, j: int| 0 <= i < j < before.len() ==> before[i].0@ != before[j].0@,
    ensures
        cache_map(after) =~= cache_map(before).remove(before[idx].0@),
        forall|i: int, j: int| 0 <= i < j < after.len() ==> after[i].0@ != after[j].0@,
    decreases before.len(),
{
    if idx == before.len() - 1 {
        assert(after =~= before.drop_last());
        lemma_cache_absent(before.drop_last(), before[idx].0@);
    } else {
        assert(after.drop_last() =~= before.drop_last().remove(idx));
        lemma_cache_remove(before.drop_last(), after.drop_last(), idx);
        assert(after.last() == before.last());
    }
}

} // verus!

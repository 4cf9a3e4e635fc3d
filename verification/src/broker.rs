//! Request/response correlation.
//!
//! A command sent with an id registers a single-use waiter before the bytes
//! go out, so that even an immediate reply finds it. Every path out of a
//! request — matching response, write failure, closed channel, timeout —
//! removes the waiter again: the table never leaks entries, a response
//! resolves at most one waiter, and a response arriving after its waiter
//! has gone is dropped without touching any other entry.

use vstd::prelude::*;

use crate::json::bytes_eq;
use crate::types::RpcCommand;

verus! {

broadcast use vstd::seq::group_seq_axioms, vstd::map::group_map_axioms;

/// The registered waiters, one per outstanding command id. The waiter
/// payload `W` is whatever completion handle the runtime uses.
pub struct PendingTable<W> {
    pub entries: Vec<(Vec<u8>, W)>,
}

/// The table as a map from id to waiter.
pub open spec fn table_map<W>(entries: Seq<(Vec<u8>, W)>) -> Map<Seq<u8>, W>
    decreases entries.len(),
{
    if entries.len() == 0 {
        Map::empty()
    } else {
        table_map(entries.drop_last()).insert(entries.last().0@, entries.last().1)
    }
}

impl<W> View for PendingTable<W> {
    type V = Map<Seq<u8>, W>;

    open spec fn view(&self) -> Map<Seq<u8>, W> {
        table_map(self.entries@)
    }
}

impl<W> PendingTable<W> {
    /// At most one entry per id.
    pub open spec fn wf(&self) -> bool {
        forall|i: int, j: int| 0 <= i < j < self.entries@.len()
            ==> self.entries@[i].0@ != self.entries@[j].0@
    }

    pub fn new() -> (r: PendingTable<W>)
        ensures
            r@ == Map::<Seq<u8>, W>::empty(),
            r.wf(),
    {
        let r = PendingTable { entries: Vec::new() };
        proof {
            assert(r.entries@.len() == 0);
        }
        r
    }

    /// How many commands are outstanding.
    pub fn len(&self) -> (r: usize)
        ensures
            r == self.entries@.len(),
    {
        self.entries.len()
    }

    /// Registers a single-use waiter under `id`. A waiter already there
    /// under the same id is returned to the caller (its request is then
    /// resolved as superseded rather than silently dropped).
    #[verifier::loop_isolation(false)]
    pub fn insert_waiter(&mut self, id: &[u8], w: W) -> (r: Option<W>)
        requires
            old(self).wf(),
        ensures
            final(self).wf(),
            final(self)@ == old(self)@.insert(id@, w),
            match r {
                Some(prev) => old(self)@.contains_key(id@) && prev == old(self)@[id@],
                None => !old(self)@.contains_key(id@),
            },
    {
        let ghost m0 = self@;
        let n = self.entries.len();
        let mut idx: usize = 0;
        while idx < n
            invariant
                *self == *old(self),
                idx <= n,
                n == self.entries@.len(),
                forall|k: int| 0 <= k < idx ==> self.entries@[k].0@ != id@,
            decreases n - idx,
        {
            if bytes_eq(self.entries[idx].0.as_slice(), id) {
                proof {
                    lemma_table_at(self.entries@, idx as int);
                }
                let kcopy = crate::json::copy_range(id, 0, id.len());
                assert(kcopy@ =~= id@);
                let mut pair = (kcopy, w);
                core::mem::swap(&mut pair, &mut self.entries[idx]);
                proof {
                    lemma_table_update(old(self).entries@, self.entries@, idx as int);
                    assert(self@ =~= old(self)@.insert(id@, w));
                }
                return Some(pair.1);
            }
            idx += 1;
        }
        proof {
            lemma_table_absent(self.entries@, id@);
        }
        let kcopy = crate::json::copy_range(id, 0, id.len());
        assert(kcopy@ =~= id@);
        self.entries.push((kcopy, w));
        proof {
            assert(self.entries@.drop_last() =~= old(self).entries@);
        }
        None
    }

    /// Takes the waiter registered under `id`, if any. A response whose
    /// waiter is gone gets `None` back — it is dropped silently, and the
    /// table, so every other pending request, is left exactly as it was.
    #[verifier::loop_isolation(false)]
    pub fn take_waiter(&mut self, id: &[u8]) -> (r: Option<W>)
        requires
            old(self).wf(),
        ensures
            final(self).wf(),
            match r {
                Some(w) => old(self)@.contains_key(id@) && w == old(self)@[id@] && final(self)@
                    == old(self)@.remove(id@),
                None => !old(self)@.contains_key(id@) && *final(self) == *old(self),
            },
    {
        let n = self.entries.len();
        let mut idx: usize = 0;
        while idx < n
            invariant
                *self == *old(self),
                idx <= n,
                n == self.entries@.len(),
                forall|k: int| 0 <= k < idx ==> self.entries@[k].0@ != id@,
            decreases n - idx,
        {
            if bytes_eq(self.entries[idx].0.as_slice(), id) {
                proof {
                    lemma_table_at(self.entries@, idx as int);
                }
                let entry = self.entries.remove(idx);
                proof {
                    lemma_table_remove(old(self).entries@, self.entries@, idx as int);
                    assert(self@ =~= old(self)@.remove(id@));
                }
                return Some(entry.1);
            }
            idx += 1;
        }
        proof {
            lemma_table_absent(self.entries@, id@);
        }
        None
    }
}

/// A unique entry shows up in the map under its key.
proof fn lemma_table_at<W>(entries: Seq<(Vec<u8>, W)>, idx: int)
    requires
        0 <= idx < entries.len(),
        forall|i: int, j: int| 0 <= i < j < entries.len() ==> entries[i].0@ != entries[j].0@,
    ensures
        table_map(entries).contains_key(entries[idx].0@),
        table_map(entries)[entries[idx].0@] == entries[idx].1,
    decreases entries.len(),
{
    if idx < entries.len() - 1 {
        lemma_table_at(entries.drop_last(), idx);
    }
}

/// A key on no entry is not in the map.
proof fn lemma_table_absent<W>(entries: Seq<(Vec<u8>, W)>, id: Seq<u8>)
    requires
        forall|k: int| 0 <= k < entries.len() ==> entries[k].0@ != id,
    ensures
        !table_map(entries).contains_key(id),
    decreases entries.len(),
{
    if entries.len() > 0 {
        lemma_table_absent(entries.drop_last(), id);
    }
}

/// Replacing an entry in place replaces its map binding.
proof fn lemma_table_update<W>(before: Seq<(Vec<u8>, W)>, after: Seq<(Vec<u8>, W)>, idx: int)
    requires
        0 <= idx < before.len(),
        after.len() == before.len(),
        after[idx].0@ == before[idx].0@,
        forall|k: int| 0 <= k < before.len() && k != idx ==> after[k] == before[k],
        forall|i: int, j: int| 0 <= i < j < before.len() ==> before[i].0@ != before[j].0@,
    ensures
        table_map(after) =~= table_map(before).insert(before[idx].0@, after[idx].1),
    decreases before.len(),
{
    if idx == before.len() - 1 {
        assert(after.drop_last() =~= before.drop_last());
    } else {
        lemma_table_update(before.drop_last(), after.drop_last(), idx);
        assert(after.last() == before.last());
        lemma_table_at(before, idx);
    }
}

/// Removing an entry removes its map binding and nothing else.
proof fn lemma_table_remove<W>(before: Seq<(Vec<u8>, W)>, after: Seq<(Vec<u8>, W)>, idx: int)
    requires
        0 <= idx < before.len(),
        after == before.remove(idx),
        forall|i: int, j: int| 0 <= i < j < before.len() ==> before[i].0@ != before[j].0@,
    ensures
        table_map(after) =~= table_map(before).remove(before[idx].0@),
        forall|i: int, j: int| 0 <= i < j < after.len() ==> after[i].0@ != after[j].0@,
    decreases before.len(),
{
    if idx == before.len() - 1 {
        assert(after =~= before.drop_last());
        lemma_table_absent(before.drop_last(), before[idx].0@);
    } else {
        assert(after.drop_last() =~= before.drop_last().remove(idx));
        lemma_table_remove(before.drop_last(), after.drop_last(), idx);
        assert(after.last() == before.last());
    }
}

/// How one request in flight can end: with its matching response, with a
/// write error on either the payload or the newline, with the completion
/// channel closed underneath it, or with its timeout elapsing.
pub enum SendOutcome {
    Response(crate::types::RpcResponse),
    WriteError(Vec<u8>),
    ChannelClosed,
    TimedOut,
}

/// What the runtime observed while a registered request was in flight.
pub enum WaitEvent {
    /// Writing the framed command failed with this message.
    WriteFailed(Vec<u8>),
    /// The waiter resolved with a response.
    Resolved(crate::types::RpcResponse),
    /// The waiter's channel closed without a response.
    Closed,
    /// The timeout elapsed first.
    TimedOut,
}

/// The single outcome a wait event settles to.
pub open spec fn outcome_of(ev: WaitEvent) -> SendOutcome {
    match ev {
        WaitEvent::WriteFailed(m) => SendOutcome::WriteError(m),
        WaitEvent::Resolved(resp) => SendOutcome::Response(resp),
        WaitEvent::Closed => SendOutcome::ChannelClosed,
        WaitEvent::TimedOut => SendOutcome::TimedOut,
    }
}

/// Settles a registered request: whatever was observed, the waiter's entry
/// leaves the table (the resolution path already took it; every error path
/// takes it here), and exactly one outcome is returned.
pub fn finish_request<W>(table: &mut PendingTable<W>, id: &[u8], ev: WaitEvent) -> (r:
    SendOutcome)
    requires
        old(table).wf(),
    ensures
        final(table).wf(),
        !final(table)@.contains_key(id@),
        final(table)@ == old(table)@.remove(id@),
        r == outcome_of(ev),
{
    match &ev {
        WaitEvent::Resolved(_) => {
            let _ = table.take_waiter(id);
        },
        _ => {
            let _ = table.take_waiter(id);
        },
    }
    proof {
        if !old(table)@.contains_key(id@) {
            assert(old(table)@.remove(id@) =~= old(table)@);
        }
    }
    match ev {
        WaitEvent::WriteFailed(m) => SendOutcome::WriteError(m),
        WaitEvent::Resolved(resp) => SendOutcome::Response(resp),
        WaitEvent::Closed => SendOutcome::ChannelClosed,
        WaitEvent::TimedOut => SendOutcome::TimedOut,
    }
}

/// Issues commands over the worker's line-oriented stdin.
pub struct RpcClient;

impl RpcClient {
    /// The exact bytes written for one command: its wire form and the
    /// terminating newline. Writes of whole frames are serialized by the
    /// caller under one lock, so frames never interleave.
    pub fn frame_command(command: &RpcCommand) -> (r: Vec<u8>)
        ensures
            r@ == crate::json::sp_ser(crate::types::cmd_json(command@)) + seq![0x0au8],
    {
        let mut out = command.encode();
        out.push(0x0a);
        assert(out@ =~= crate::json::sp_ser(crate::types::cmd_json(command@)) + seq![0x0au8]);
        out
    }
}

/// Registering a waiter and settling it leaves the table exactly as if the
/// request had never existed, with no entry left behind — on every path,
/// never on two: a request resolves to exactly one outcome, and a second
/// settlement of the same id finds nothing to resolve.
pub proof fn lemma_request_settles_once<W>(m: Map<Seq<u8>, W>, id: Seq<u8>, w: W)
    ensures
        m.insert(id, w).remove(id) =~= m.remove(id),
        !m.insert(id, w).remove(id).contains_key(id),
        m.insert(id, w).remove(id).remove(id) =~= m.insert(id, w).remove(id),
{
}

} // verus!

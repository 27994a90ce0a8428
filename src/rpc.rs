//! The pending-request table and the decisions of the dispatch loop.
//!
//! `Core<C>` owns the identifier counter and the table from identifier to
//! continuation. It does no I/O: a send returns the message to write, and
//! dispatching an inbound message returns what the loop must do with it.
//! A continuation leaves the table exactly once, either handed back with
//! the reply that carries its identifier or handed back by `shutdown`.

use crate::message::{Action, DropReason, Inbound, Outbound};
use serde_json::Value;
use vstd::prelude::*;

verus! {

/// Why a request was not sent. The continuation is handed back, so that the
/// caller can tell it of the failure.
pub enum SendError<C> {
    /// The engine is gone: the table has been drained and takes no more entries.
    Closed(C),
    /// Every identifier has been handed out.
    IdsExhausted(C),
}

/// The pending-request table after one inbound message.
pub open spec fn table_step<C>(t: Map<u64, C>, m: Inbound) -> Map<u64, C> {
    match m {
        Inbound::Response { id, .. } => t.remove(id),
        _ => t,
    }
}

/// What the dispatch loop does with one inbound message, given the table.
pub open spec fn action_step<C>(t: Map<u64, C>, m: Inbound) -> Action<C> {
    match m {
        Inbound::Response { id, reply } => if t.contains_key(id) {
            Action::Resolve { id, continuation: t[id], reply }
        } else {
            Action::Discard(DropReason::UnknownId(id))
        },
        Inbound::Notification { method, params } => Action::Notify { method, params },
        Inbound::Malformed => Action::Discard(DropReason::Malformed),
    }
}

/// The correlation core: identifier counter and pending-request table.
pub struct Core<C> {
    next_id: u64,
    pending: Vec<(u64, C)>,
    closed: bool,
    table: Ghost<Map<u64, C>>,
}

impl<C> Core<C> {
    /// The pending-request table: identifier to continuation.
    pub closed spec fn table(&self) -> Map<u64, C> {
        self.table@
    }

    /// The pending entries, in increasing order of identifier.
    pub closed spec fn entries(&self) -> Seq<(u64, C)> {
        self.pending@
    }

    /// The identifier the next request will carry.
    pub closed spec fn next_id(&self) -> u64 {
        self.next_id
    }

    /// Whether the table has been drained for good.
    pub closed spec fn is_closed(&self) -> bool {
        self.closed
    }

    /// Entries are kept in increasing order of identifier, each below the
    /// next identifier, and they are exactly the table; a closed core holds
    /// none.
    pub closed spec fn wf(&self) -> bool {
        &&& forall|i: int, j: int|
            0 <= i < j < self.pending@.len() ==> #[trigger] self.pending@[i].0
                < #[trigger] self.pending@[j].0
        &&& forall|i: int| 0 <= i < self.pending@.len() ==> #[trigger] self.pending@[i].0 < self.next_id
        &&& forall|i: int|
            0 <= i < self.pending@.len() ==> self.table@.contains_key(#[trigger] self.pending@[i].0)
                && self.table@[self.pending@[i].0] == self.pending@[i].1
        &&& forall|id: u64| #[trigger]
            self.table@.contains_key(id) ==> exists|i: int|
                0 <= i < self.pending@.len() && #[trigger] self.pending@[i].0 == id
        &&& self.closed ==> self.pending@.len() == 0
    }

    /// What a well-formed core tells of its table: the entries are the table,
    /// listed once each in increasing order of identifier, and every identifier
    /// in it is below the next one to be handed out.
    pub proof fn lemma_entries_are_table(&self)
        requires
            self.wf(),
        ensures
            forall|i: int, j: int|
                0 <= i < j < self.entries().len() ==> #[trigger] self.entries()[i].0
                    < #[trigger] self.entries()[j].0,
            forall|i: int|
                0 <= i < self.entries().len() ==> self.table().contains_key(
                    #[trigger] self.entries()[i].0,
                ) && self.table()[self.entries()[i].0] == self.entries()[i].1,
            forall|id: u64| #[trigger]
                self.table().contains_key(id) ==> id < self.next_id() && exists|i: int|
                    0 <= i < self.entries().len() && #[trigger] self.entries()[i].0 == id,
            self.is_closed() ==> self.table() =~= Map::<u64, C>::empty(),
    {
        assert forall|id: u64| #[trigger] self.table().contains_key(id) implies id < self.next_id()
            && exists|i: int| 0 <= i < self.entries().len() && #[trigger] self.entries()[i].0 == id by {
            let i = choose|i: int| 0 <= i < self.pending@.len() && #[trigger] self.pending@[i].0 == id;
            assert(self.entries()[i].0 == id);
        }
        if self.closed {
            assert forall|id: u64| !#[trigger] self.table().contains_key(id) by {
                if self.table().contains_key(id) {
                    let i = choose|i: int| 0 <= i < self.pending@.len() && #[trigger] self.pending@[i].0 == id;
                }
            }
        }
    }

    /// An empty table; the first request gets identifier 0.
    pub fn new() -> (r: Core<C>)
        ensures
            r.wf(),
            r.table() == Map::<u64, C>::empty(),
            r.next_id() == 0,
            !r.is_closed(),
    {
        Core { next_id: 0, pending: Vec::new(), closed: false, table: Ghost(Map::empty()) }
    }

    /// How many requests await their reply.
    pub fn pending_len(&self) -> (r: usize)
        ensures
            r == self.entries().len(),
    {
        self.pending.len()
    }

    /// The message for a notification. No entry is made in the table.
    pub fn send_notification(&self, method: String, params: Value) -> (r: Outbound)
        ensures
            r == (Outbound::Notification { method, params }),
    {
        Outbound::Notification { method, params }
    }

    /// Enters `continuation` under a fresh identifier, then gives the request
    /// to write. On a closed core, or when identifiers have run out, nothing
    /// changes and the continuation comes back in the error.
    pub fn send_request(&mut self, method: String, params: Value, continuation: C) -> (r: Result<
        Outbound,
        SendError<C>,
    >)
        requires
            old(self).wf(),
        ensures
            final(self).wf(),
            old(self).is_closed() ==> r == Err::<Outbound, SendError<C>>(
                SendError::Closed(continuation),
            ) && *final(self) == *old(self),
            !old(self).is_closed() && old(self).next_id() == u64::MAX ==> r == Err::<
                Outbound,
                SendError<C>,
            >(SendError::IdsExhausted(continuation)) && *final(self) == *old(self),
            !old(self).is_closed() && old(self).next_id() < u64::MAX ==> {
                &&& r == Ok::<Outbound, SendError<C>>(
                    Outbound::Request { id: old(self).next_id(), method, params },
                )
                &&& !old(self).table().contains_key(old(self).next_id())
                &&& final(self).table() == old(self).table().insert(
                    old(self).next_id(),
                    continuation,
                )
                &&& final(self).next_id() == old(self).next_id() + 1
                &&& !final(self).is_closed()
            },
    {
        if self.closed {
            return Err(SendError::Closed(continuation));
        }
        if self.next_id == u64::MAX {
            return Err(SendError::IdsExhausted(continuation));
        }
        let id = self.next_id;
        proof {
            self.lemma_entries_are_table();
        }
        let ghost old_pending = self.pending@;
        self.table = Ghost(self.table@.insert(id, continuation));
        self.pending.push((id, continuation));
        self.next_id = id + 1;
        assert forall|k: u64| #[trigger] self.table@.contains_key(k) implies exists|i: int|
            0 <= i < self.pending@.len() && #[trigger] self.pending@[i].0 == k by {
            if k == id {
                assert(self.pending@[old_pending.len() as int].0 == k);
            } else {
                let i = choose|i: int| 0 <= i < old_pending.len() && #[trigger] old_pending[i].0 == k;
                assert(self.pending@[i].0 == k);
            }
        }
        Ok(Outbound::Request { id, method, params })
    }

    /// Decides what to do with one inbound message. A response whose
    /// identifier is pending takes its continuation out of the table; one whose
    /// identifier is not (never sent, or already answered) is discarded.
    /// Notifications and malformed messages leave the table as it is.
    pub fn dispatch(&mut self, msg: Inbound) -> (r: Action<C>)
        requires
            old(self).wf(),
        ensures
            final(self).wf(),
            r == action_step(old(self).table(), msg),
            final(self).table() == table_step(old(self).table(), msg),
            final(self).next_id() == old(self).next_id(),
            final(self).is_closed() == old(self).is_closed(),
    {
        match msg {
            Inbound::Response { id, reply } => {
                let mut i: usize = 0;
                while i < self.pending.len()
                    invariant
                        self.wf(),
                        msg == (Inbound::Response { id, reply }),
                        self.table() == old(self).table(),
                        self.next_id() == old(self).next_id(),
                        self.is_closed() == old(self).is_closed(),
                        0 <= i <= self.pending@.len(),
                        forall|k: int| 0 <= k < i ==> #[trigger] self.pending@[k].0 != id,
                    decreases self.pending@.len() - i,
                {
                    if self.pending[i].0 == id {
                        let ghost old_pending = self.pending@;
                        let ghost old_table = self.table@;
                        assert(old_table.contains_key(id) && old_table[id] == old_pending[i as int].1);
                        let (_, continuation) = self.pending.remove(i);
                        self.table = Ghost(self.table@.remove(id));
                        assert(self.table@.insert(id, old_pending[i as int].1) =~= old_table);
                        proof {
                            self.lemma_removed_entry(old_pending, i as int, id);
                        }
                        return Action::Resolve { id, continuation, reply };
                    }
                    i += 1;
                }
                proof {
                    if self.table@.contains_key(id) {
                        let k = choose|k: int| 0 <= k < self.pending@.len() && #[trigger] self.pending@[k].0 == id;
                    }
                    assert(self.table@.remove(id) =~= self.table@);
                }
                Action::Discard(DropReason::UnknownId(id))
            },
            Inbound::Notification { method, params } => Action::Notify { method, params },
            Inbound::Malformed => Action::Discard(DropReason::Malformed),
        }
    }

    proof fn lemma_removed_entry(&self, before: Seq<(u64, C)>, i: int, id: u64)
        requires
            0 <= i < before.len(),
            before[i].0 == id,
            self.pending@ == before.remove(i),
            forall|a: int, b: int| 0 <= a < b < before.len() ==> #[trigger] before[a].0 < #[trigger] before[b].0,
            forall|a: int| 0 <= a < before.len() ==> #[trigger] before[a].0 < self.next_id,
            forall|a: int|
                0 <= a < before.len() ==> self.table@.insert(id, before[i].1).contains_key(#[trigger] before[a].0)
                    && self.table@.insert(id, before[i].1)[before[a].0] == before[a].1,
            forall|k: u64| #[trigger]
                self.table@.insert(id, before[i].1).contains_key(k) ==> exists|a: int|
                    0 <= a < before.len() && #[trigger] before[a].0 == k,
            !self.table@.contains_key(id),
            !self.closed,
        ensures
            self.wf(),
    {
        assert forall|a: int, b: int| 0 <= a < b < self.pending@.len() implies #[trigger] self.pending@[a].0
            < #[trigger] self.pending@[b].0 by {
            let a2 = if a < i { a } else { a + 1 };
            let b2 = if b < i { b } else { b + 1 };
            assert(self.pending@[a] == before[a2]);
            assert(self.pending@[b] == before[b2]);
            assert(before[a2].0 < before[b2].0);
        }
        assert forall|a: int| 0 <= a < self.pending@.len() implies #[trigger] self.pending@[a].0 < self.next_id
            && self.table@.contains_key(self.pending@[a].0)
            && self.table@[self.pending@[a].0] == self.pending@[a].1 by {
            let a2 = if a < i { a } else { a + 1 };
            assert(self.pending@[a] == before[a2]);
            assert(a2 != i);
            if a2 < i {
                assert(before[a2].0 < before[i].0);
            } else {
                assert(before[i].0 < before[a2].0);
            }
        }
        assert forall|k: u64| #[trigger] self.table@.contains_key(k) implies exists|a: int|
            0 <= a < self.pending@.len() && #[trigger] self.pending@[a].0 == k by {
            assert(self.table@.insert(id, before[i].1).contains_key(k));
            let a2 = choose|a: int| 0 <= a < before.len() && #[trigger] before[a].0 == k;
            assert(a2 != i);
            let a = if a2 < i { a2 } else { a2 - 1 };
            assert(self.pending@[a] == before[a2]);
        }
    }

    /// Drains the table when the engine is gone: every pending continuation
    /// is handed back, in increasing order of identifier, and the core takes
    /// no further requests.
    pub fn shutdown(&mut self) -> (r: Vec<C>)
        requires
            old(self).wf(),
        ensures
            final(self).wf(),
            final(self).is_closed(),
            final(self).table() == Map::<u64, C>::empty(),
            final(self).next_id() == old(self).next_id(),
            r@.len() == old(self).entries().len(),
            forall|i: int|
                0 <= i < r@.len() ==> old(self).table().contains_key(old(self).entries()[i].0) && #[trigger] r@[i]
                    == old(self).entries()[i].1 && r@[i] == old(self).table()[old(self).entries()[i].0],
            forall|id: u64| #[trigger]
                old(self).table().contains_key(id) ==> exists|i: int|
                    0 <= i < r@.len() && #[trigger] old(self).entries()[i].0 == id && r@[i]
                        == old(self).table()[id],
            forall|i: int, j: int|
                0 <= i < j < r@.len() ==> #[trigger] old(self).entries()[i].0
                    != #[trigger] old(self).entries()[j].0,
    {
        proof {
            self.lemma_entries_are_table();
        }
        let mut drained: Vec<(u64, C)> = Vec::new();
        std::mem::swap(&mut drained, &mut self.pending);
        let ghost all = drained@;
        let mut r: Vec<C> = Vec::new();
        while drained.len() > 0
            invariant
                r@.len() + drained@.len() == all.len(),
                forall|k: int| 0 <= k < r@.len() ==> #[trigger] r@[k] == all[k].1,
                forall|k: int| 0 <= k < drained@.len() ==> #[trigger] drained@[k] == all[k + r@.len()],
            decreases drained@.len(),
        {
            let (_, c) = drained.remove(0);
            r.push(c);
        }
        self.table = Ghost(Map::empty());
        self.closed = true;
        r
    }
}

} // verus!

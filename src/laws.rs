//! What holds of the dispatch loop over a whole run of inbound messages.
//!
//! `Core::dispatch` is pinned to `table_step` and `action_step`; a run of
//! messages handled one after the other is therefore described by
//! `table_after` and `actions_of` below, and the lemmas here are stated
//! over those.

use crate::message::{Action, DropReason, Inbound, Reply};
use crate::rpc::{action_step, table_step};
use serde_json::Value;
use vstd::prelude::*;

verus! {

/// The table after handling `msgs` in order, starting from `t`.
pub open spec fn table_after<C>(t: Map<u64, C>, msgs: Seq<Inbound>) -> Map<u64, C>
    decreases msgs.len(),
{
    if msgs.len() == 0 {
        t
    } else {
        table_after(table_step(t, msgs[0]), msgs.drop_first())
    }
}

/// The actions taken when handling `msgs` in order, starting from `t`:
/// one per message, at the same position.
pub open spec fn actions_of<C>(t: Map<u64, C>, msgs: Seq<Inbound>) -> Seq<Action<C>>
    decreases msgs.len(),
{
    if msgs.len() == 0 {
        Seq::empty()
    } else {
        seq![action_step(t, msgs[0])] + actions_of(table_step(t, msgs[0]), msgs.drop_first())
    }
}

/// Whether `m` is a response carrying identifier `id`.
pub open spec fn answers(m: Inbound, id: u64) -> bool {
    match m {
        Inbound::Response { id: j, .. } => j == id,
        _ => false,
    }
}

/// Whether some message of `msgs` is a response carrying `id`.
pub open spec fn has_response(msgs: Seq<Inbound>, id: u64) -> bool {
    exists|i: int| 0 <= i < msgs.len() && answers(#[trigger] msgs[i], id)
}

/// Whether `a` runs the continuation of identifier `id`.
pub open spec fn resolves<C>(a: Action<C>, id: u64) -> bool {
    match a {
        Action::Resolve { id: j, .. } => j == id,
        _ => false,
    }
}

/// How many actions of `acts` run the continuation of `id`.
pub open spec fn resolve_count<C>(acts: Seq<Action<C>>, id: u64) -> nat
    decreases acts.len(),
{
    if acts.len() == 0 {
        0
    } else {
        (if resolves(acts[0], id) { 1nat } else { 0nat }) + resolve_count(acts.drop_first(), id)
    }
}

/// The notifications among `msgs`, in order, as method and parameters.
pub open spec fn notifications_in(msgs: Seq<Inbound>) -> Seq<(String, Value)>
    decreases msgs.len(),
{
    if msgs.len() == 0 {
        Seq::empty()
    } else {
        match msgs[0] {
            Inbound::Notification { method, params } => seq![(method, params)]
                + notifications_in(msgs.drop_first()),
            _ => notifications_in(msgs.drop_first()),
        }
    }
}

/// The notifications that `acts` hand to the handler, in order.
pub open spec fn notified<C>(acts: Seq<Action<C>>) -> Seq<(String, Value)>
    decreases acts.len(),
{
    if acts.len() == 0 {
        Seq::empty()
    } else {
        match acts[0] {
            Action::Notify { method, params } => seq![(method, params)] + notified(acts.drop_first()),
            _ => notified(acts.drop_first()),
        }
    }
}

/// One action is taken per message.
pub proof fn lemma_one_action_per_message<C>(t: Map<u64, C>, msgs: Seq<Inbound>)
    ensures
        actions_of(t, msgs).len() == msgs.len(),
    decreases msgs.len(),
{
    if msgs.len() > 0 {
        lemma_one_action_per_message(table_step(t, msgs[0]), msgs.drop_first());
    }
}

/// A continuation that is not in the table is never run: in particular a
/// response to a request that was already answered is dropped.
pub proof fn lemma_absent_never_resolved<C>(t: Map<u64, C>, msgs: Seq<Inbound>, id: u64)
    requires
        !t.contains_key(id),
    ensures
        resolve_count(actions_of(t, msgs), id) == 0,
        !table_after(t, msgs).contains_key(id),
    decreases msgs.len(),
{
    if msgs.len() > 0 {
        let t1 = table_step(t, msgs[0]);
        lemma_absent_never_resolved(t1, msgs.drop_first(), id);
        let acts = actions_of(t, msgs);
        assert(acts.drop_first() =~= actions_of(t1, msgs.drop_first()));
    }
}

/// Each pending continuation runs exactly once if a response with its
/// identifier arrives, however many such responses arrive, and never
/// otherwise.
pub proof fn lemma_each_continuation_once<C>(t: Map<u64, C>, msgs: Seq<Inbound>, id: u64)
    ensures
        resolve_count(actions_of(t, msgs), id) == (if t.contains_key(id) && has_response(msgs, id) {
            1nat
        } else {
            0nat
        }),
    decreases msgs.len(),
{
    if msgs.len() == 0 {
        if !t.contains_key(id) {
            lemma_absent_never_resolved(t, msgs, id);
        }
    } else {
        let t1 = table_step(t, msgs[0]);
        let rest = msgs.drop_first();
        let acts = actions_of(t, msgs);
        assert(acts.drop_first() =~= actions_of(t1, rest));
        if !t.contains_key(id) {
            lemma_absent_never_resolved(t, msgs, id);
        } else if answers(msgs[0], id) {
            lemma_absent_never_resolved(t1, rest, id);
            assert(has_response(msgs, id));
        } else {
            lemma_each_continuation_once(t1, rest, id);
            assert(t1.contains_key(id));
            if has_response(msgs, id) {
                let i = choose|i: int| 0 <= i < msgs.len() && answers(#[trigger] msgs[i], id);
                assert(rest[i - 1] == msgs[i]);
            }
            if has_response(rest, id) {
                let i = choose|i: int| 0 <= i < rest.len() && answers(#[trigger] rest[i], id);
                assert(msgs[i + 1] == rest[i]);
            }
        }
    }
}

/// A continuation is run only at the first response that carries its own
/// identifier, with that response's reply, and it is the continuation that
/// was entered under that identifier: replies are never crossed.
pub proof fn lemma_resolve_matches_request<C>(t: Map<u64, C>, msgs: Seq<Inbound>, i: int)
    requires
        0 <= i < msgs.len(),
        actions_of(t, msgs)[i] is Resolve,
    ensures
        ({
            let a = actions_of(t, msgs)[i];
            match a {
                Action::Resolve { id, continuation, reply } => {
                    &&& msgs[i] == (Inbound::Response { id, reply })
                    &&& t.contains_key(id)
                    &&& continuation == t[id]
                    &&& forall|k: int| 0 <= k < i ==> !answers(#[trigger] msgs[k], id)
                },
                _ => false,
            }
        }),
    decreases msgs.len(),
{
    let t1 = table_step(t, msgs[0]);
    let rest = msgs.drop_first();
    lemma_one_action_per_message(t, msgs);
    lemma_one_action_per_message(t1, rest);
    if i > 0 {
        assert(actions_of(t, msgs)[i] == actions_of(t1, rest)[i - 1]);
        lemma_resolve_matches_request(t1, rest, i - 1);
        match actions_of(t, msgs)[i] {
            Action::Resolve { id, continuation, reply } => {
                assert(t1.contains_key(id));
                assert(!answers(msgs[0], id));
                assert forall|k: int| 0 <= k < i implies !answers(#[trigger] msgs[k], id) by {
                    if k > 0 {
                        assert(msgs[k] == rest[k - 1]);
                    }
                }
            },
            _ => {},
        }
    }
}

/// Notifications reach the handler exactly as they arrive: all of them, in
/// the order of the inbound stream, whatever responses are interleaved.
pub proof fn lemma_notifications_in_order<C>(t: Map<u64, C>, msgs: Seq<Inbound>)
    ensures
        notified(actions_of(t, msgs)) == notifications_in(msgs),
    decreases msgs.len(),
{
    if msgs.len() > 0 {
        let t1 = table_step(t, msgs[0]);
        let rest = msgs.drop_first();
        lemma_notifications_in_order(t1, rest);
        let acts = actions_of(t, msgs);
        assert(acts.drop_first() =~= actions_of(t1, rest));
    }
}

/// No pending request is lost: whatever arrives, each continuation that
/// was in the table has either been run by a response or is still in the
/// table, where `Core::shutdown` hands it back; never both.
pub proof fn lemma_none_dropped<C>(t: Map<u64, C>, msgs: Seq<Inbound>, id: u64)
    requires
        t.contains_key(id),
    ensures
        resolve_count(actions_of(t, msgs), id) + (if table_after(t, msgs).contains_key(id) {
            1nat
        } else {
            0nat
        }) == 1,
    decreases msgs.len(),
{
    if msgs.len() > 0 {
        let t1 = table_step(t, msgs[0]);
        let rest = msgs.drop_first();
        let acts = actions_of(t, msgs);
        assert(acts.drop_first() =~= actions_of(t1, rest));
        if answers(msgs[0], id) {
            lemma_absent_never_resolved(t1, rest, id);
        } else {
            lemma_none_dropped(t1, rest, id);
        }
    }
}

/// Two requests entered under distinct identifiers (as two sends give
/// them), answered in either order, each get their own reply.
pub proof fn lemma_two_requests_not_crossed<C>(
    t: Map<u64, C>,
    id1: u64,
    c1: C,
    id2: u64,
    c2: C,
    r1: Reply,
    r2: Reply,
)
    requires
        id1 != id2,
    ensures
        ({
            let t2 = t.insert(id1, c1).insert(id2, c2);
            let m1 = Inbound::Response { id: id1, reply: r1 };
            let m2 = Inbound::Response { id: id2, reply: r2 };
            let a1 = Action::Resolve { id: id1, continuation: c1, reply: r1 };
            let a2 = Action::Resolve { id: id2, continuation: c2, reply: r2 };
            &&& actions_of(t2, seq![m1, m2]) == seq![a1, a2]
            &&& actions_of(t2, seq![m2, m1]) == seq![a2, a1]
        }),
{
    let t2 = t.insert(id1, c1).insert(id2, c2);
    let m1 = Inbound::Response { id: id1, reply: r1 };
    let m2 = Inbound::Response { id: id2, reply: r2 };
    let s12 = seq![m1, m2];
    let s21 = seq![m2, m1];
    assert(s12.drop_first().drop_first() =~= Seq::<Inbound>::empty());
    assert(s21.drop_first().drop_first() =~= Seq::<Inbound>::empty());
    assert(s12.drop_first() =~= seq![m2]);
    assert(s21.drop_first() =~= seq![m1]);
    assert(t2.remove(id1).contains_key(id2) && t2.remove(id1)[id2] == c2);
    assert(t2.remove(id2).contains_key(id1) && t2.remove(id2)[id1] == c1);
    assert(seq![m2].drop_first() =~= Seq::<Inbound>::empty());
    assert(seq![m1].drop_first() =~= Seq::<Inbound>::empty());
    assert(actions_of(t2.remove(id1).remove(id2), Seq::<Inbound>::empty()) =~= Seq::<Action<C>>::empty());
    assert(actions_of(t2.remove(id2).remove(id1), Seq::<Inbound>::empty()) =~= Seq::<Action<C>>::empty());
    assert(actions_of(t2.remove(id1), seq![m2]) =~= seq![Action::Resolve { id: id2, continuation: c2, reply: r2 }]);
    assert(actions_of(t2.remove(id2), seq![m1]) =~= seq![Action::Resolve { id: id1, continuation: c1, reply: r1 }]);
    assert(actions_of(t2, s12) =~= seq![
        Action::Resolve { id: id1, continuation: c1, reply: r1 },
        Action::Resolve { id: id2, continuation: c2, reply: r2 },
    ]);
    assert(actions_of(t2, s21) =~= seq![
        Action::Resolve { id: id2, continuation: c2, reply: r2 },
        Action::Resolve { id: id1, continuation: c1, reply: r1 },
    ]);
}

/// A second response to a request that was already answered is dropped:
/// the continuation runs with the first reply only.
pub proof fn lemma_duplicate_discarded<C>(t: Map<u64, C>, id: u64, r1: Reply, r2: Reply)
    requires
        t.contains_key(id),
    ensures
        actions_of(
            t,
            seq![Inbound::Response { id, reply: r1 }, Inbound::Response { id, reply: r2 }],
        ) == seq![
            Action::Resolve { id, continuation: t[id], reply: r1 },
            Action::<C>::Discard(DropReason::UnknownId(id)),
        ],
{
    let m1 = Inbound::Response { id, reply: r1 };
    let m2 = Inbound::Response { id, reply: r2 };
    let msgs = seq![m1, m2];
    assert(msgs.drop_first() =~= seq![m2]);
    assert(seq![m2].drop_first() =~= Seq::<Inbound>::empty());
    assert(actions_of(t.remove(id).remove(id), Seq::<Inbound>::empty()) =~= Seq::<Action<C>>::empty());
    assert(!t.remove(id).contains_key(id));
    assert(actions_of(t.remove(id), seq![m2]) =~= seq![Action::<C>::Discard(DropReason::UnknownId(id))]);
    assert(actions_of(t, msgs) =~= seq![
        Action::Resolve { id, continuation: t[id], reply: r1 },
        Action::<C>::Discard(DropReason::UnknownId(id)),
    ]);
}

} // verus!

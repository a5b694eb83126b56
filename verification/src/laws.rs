//! The registry's laws: what holds across whole operation histories, not
//! just across one call.
//!
//! The effect predicates below package, clause for clause, what the
//! corresponding registry operations promise in their contracts; the
//! proof functions then state the properties a caller may rely on when it
//! chains such operations: membership is the net effect of connects minus
//! disconnects, a duplicate disconnect changes nothing, one poll never
//! gets two groups, and a failed peer never costs the others a frame.

use vstd::prelude::*;

use crate::messages::left_chars;
use crate::registry::Registry;
use crate::registry::resolve_model;

verus! {

/// The membership effect that `Registry::connect` promises for the group
/// connected to and for every other group.
pub open spec fn connect_effect(pre: Registry, post: Registry, g: u128, c: u128) -> bool {
    &&& post.members(g) == pre.members(g).insert(c)
    &&& forall|g2: u128| g2 != g ==> post.members(g2) == pre.members(g2)
}

/// What `Registry::disconnect` promises: a connection that is not a
/// member of the group leaves everything as it was; a member is removed,
/// and the remaining members of its group are told so.
pub open spec fn disconnect_effect(pre: Registry, post: Registry, g: u128, c: u128) -> bool {
    &&& !(pre.has_conn(c) && pre.group_of(c) == g) ==> post.sview() == pre.sview()
    &&& (pre.has_conn(c) && pre.group_of(c) == g) ==> !post.has_conn(c)
    &&& forall|x: u128| x != c ==> post.has_conn(x) == pre.has_conn(x)
    &&& forall|x: u128| x != c && pre.has_conn(x) ==> post.group_of(x) == pre.group_of(x)
    &&& (pre.has_conn(c) && pre.group_of(c) == g) ==> forall|x: u128|
        x != c && pre.has_conn(x) && pre.group_of(x) == g ==> post.outbox_of(x)
            == pre.outbox_of(x).push(left_chars(c))
    &&& post.members(g) == pre.members(g).remove(c)
    &&& forall|g2: u128| g2 != g ==> post.members(g2) == pre.members(g2)
}

/// What `Registry::broadcast` promises: every member of the group has the
/// frame appended to its outbox, nobody joins or leaves, and nobody
/// outside the group sees anything.
pub open spec fn broadcast_effect(pre: Registry, post: Registry, g: u128, m: Seq<char>) -> bool {
    &&& forall|x: u128| post.has_conn(x) == pre.has_conn(x)
    &&& forall|x: u128| pre.has_conn(x) ==> post.group_of(x) == pre.group_of(x)
    &&& forall|x: u128|
        pre.has_conn(x) && pre.group_of(x) == g ==> post.outbox_of(x) == pre.outbox_of(x).push(m)
    &&& forall|x: u128|
        pre.has_conn(x) && pre.group_of(x) != g ==> post.outbox_of(x) == pre.outbox_of(x)
}

/// One membership event on a group.
pub ghost enum GroupEvent {
    Connect(u128),
    Disconnect(u128),
}

/// What one event does to a membership set.
pub open spec fn roster_step(s: Set<u128>, e: GroupEvent) -> Set<u128> {
    match e {
        GroupEvent::Connect(c) => s.insert(c),
        GroupEvent::Disconnect(c) => s.remove(c),
    }
}

/// The membership set after replaying a history of events.
pub open spec fn roster_replay(s: Set<u128>, evs: Seq<GroupEvent>) -> Set<u128>
    decreases evs.len(),
{
    if evs.len() == 0 {
        s
    } else {
        roster_replay(roster_step(s, evs.first()), evs.drop_first())
    }
}

/// No event after position `i` disconnects `c`.
pub open spec fn no_disconnect_after(evs: Seq<GroupEvent>, c: u128, i: int) -> bool {
    forall|j: int| i < j < evs.len() ==> evs[j] != GroupEvent::Disconnect(c)
}

/// No event in the history disconnects `c`.
pub open spec fn no_disconnect(evs: Seq<GroupEvent>, c: u128) -> bool {
    forall|j: int| 0 <= j < evs.len() ==> evs[j] != GroupEvent::Disconnect(c)
}

/// Some connect of `c` is followed by no disconnect of `c`.
pub open spec fn connected_for_good(evs: Seq<GroupEvent>, c: u128) -> bool {
    exists|i: int|
        0 <= i < evs.len() && evs[i] == GroupEvent::Connect(c) && no_disconnect_after(evs, c, i)
}

/// Membership is the net effect of adds minus removes: after replaying
/// any history, a connection is a member exactly when its last connect
/// was never followed by a disconnect, or it was a member at the start
/// and the history never disconnected it.
pub proof fn lemma_roster_net_effect(s: Set<u128>, evs: Seq<GroupEvent>, c: u128)
    ensures
        roster_replay(s, evs).contains(c) == (connected_for_good(evs, c) || (s.contains(c)
            && no_disconnect(evs, c))),
    decreases evs.len(),
{
    if evs.len() == 0 {
    } else {
        let e0 = evs.first();
        let rest = evs.drop_first();
        let s1 = roster_step(s, e0);
        lemma_roster_net_effect(s1, rest, c);
        assert forall|i: int|
            0 <= i < rest.len() && rest[i] == GroupEvent::Connect(c) && no_disconnect_after(
                rest,
                c,
                i,
            ) implies evs[i + 1] == GroupEvent::Connect(c) && no_disconnect_after(
            evs,
            c,
            i + 1,
        ) by {
            assert forall|j: int| i + 1 < j < evs.len() implies evs[j] != GroupEvent::Disconnect(
                c,
            ) by {
                assert(evs[j] == rest[j - 1]);
            }
        }
        assert forall|i: int|
            1 <= i < evs.len() && evs[i] == GroupEvent::Connect(c) && no_disconnect_after(
                evs,
                c,
                i,
            ) implies rest[i - 1] == GroupEvent::Connect(c) && no_disconnect_after(
            rest,
            c,
            i - 1,
        ) by {
            assert forall|j: int| i - 1 < j < rest.len() implies rest[j]
                != GroupEvent::Disconnect(c) by {
                assert(rest[j] == evs[j + 1]);
            }
        }
        if e0 == GroupEvent::Connect(c) {
            assert(s1.contains(c));
            // a connect at the head counts when nothing later disconnects
            if no_disconnect(rest, c) {
                assert(no_disconnect_after(evs, c, 0)) by {
                    assert forall|j: int| 0 < j < evs.len() implies evs[j]
                        != GroupEvent::Disconnect(c) by {
                        assert(evs[j] == rest[j - 1]);
                    }
                }
                assert(connected_for_good(evs, c));
            }
            if connected_for_good(evs, c) || (s.contains(c) && no_disconnect(evs, c)) {
                if !(connected_for_good(rest, c) || no_disconnect(rest, c)) {
                    let witness = choose|j: int|
                        0 <= j < rest.len() && rest[j] == GroupEvent::Disconnect(c);
                    if connected_for_good(evs, c) {
                        let i = choose|i: int|
                            0 <= i < evs.len() && evs[i] == GroupEvent::Connect(c)
                                && no_disconnect_after(evs, c, i);
                        if i == 0 {
                            assert(evs[witness + 1] == rest[witness]);
                            assert(false);
                        }
                    } else {
                        assert(evs[witness + 1] == rest[witness]);
                        assert(false);
                    }
                }
            }
        } else if e0 == GroupEvent::Disconnect(c) {
            assert(!s1.contains(c));
            if connected_for_good(evs, c) {
                let i = choose|i: int|
                    0 <= i < evs.len() && evs[i] == GroupEvent::Connect(c) && no_disconnect_after(
                        evs,
                        c,
                        i,
                    );
                assert(i >= 1);
            }
            assert(!no_disconnect(evs, c));
        } else {
            assert(s1.contains(c) == s.contains(c));
            if connected_for_good(evs, c) {
                let i = choose|i: int|
                    0 <= i < evs.len() && evs[i] == GroupEvent::Connect(c) && no_disconnect_after(
                        evs,
                        c,
                        i,
                    );
                assert(i >= 1);
            }
            assert(no_disconnect(evs, c) == no_disconnect(rest, c)) by {
                if no_disconnect(rest, c) {
                    assert forall|j: int| 0 <= j < evs.len() implies evs[j]
                        != GroupEvent::Disconnect(c) by {
                        if j > 0 {
                            assert(evs[j] == rest[j - 1]);
                        }
                    }
                }
            }
        }
    }
}

/// A history of registry states where each step is one connect or
/// disconnect on group `g`, each satisfying its contract's effect.
pub open spec fn group_trace(states: Seq<Registry>, g: u128, evs: Seq<GroupEvent>) -> bool {
    &&& states.len() == evs.len() + 1
    &&& forall|i: int|
        0 <= i < evs.len() ==> match #[trigger] evs[i] {
            GroupEvent::Connect(c) => connect_effect(states[i], states[i + 1], g, c),
            GroupEvent::Disconnect(c) => disconnect_effect(states[i], states[i + 1], g, c),
        }
}

/// Replaying any history of connects and disconnects on a group leaves
/// exactly the membership that the event replay computes: the registry's
/// membership is the net effect of adds minus removes.
pub proof fn lemma_membership_replay(states: Seq<Registry>, g: u128, evs: Seq<GroupEvent>)
    requires
        group_trace(states, g, evs),
    ensures
        states.last().members(g) == roster_replay(states.first().members(g), evs),
    decreases evs.len(),
{
    if evs.len() == 0 {
    } else {
        let tail = states.drop_first();
        assert(group_trace(tail, g, evs.drop_first())) by {
            assert forall|i: int| 0 <= i < evs.drop_first().len() implies match #[trigger] evs.drop_first()[i] {
                GroupEvent::Connect(c) => connect_effect(tail[i], tail[i + 1], g, c),
                GroupEvent::Disconnect(c) => disconnect_effect(tail[i], tail[i + 1], g, c),
            } by {
                assert(evs.drop_first()[i] == evs[i + 1]);
                assert(tail[i] == states[i + 1]);
                assert(tail[i + 1] == states[i + 2]);
            }
        }
        lemma_membership_replay(tail, g, evs.drop_first());
        assert(states[1].members(g) == roster_step(states[0].members(g), evs.first()));
        assert(tail.last() == states.last());
        assert(tail.first() == states[1]);
    }
}

/// Disconnecting twice is disconnecting once: the second call finds
/// nothing to remove and leaves the registry exactly as the first left
/// it.
pub proof fn lemma_duplicate_disconnect_is_noop(
    pre: Registry,
    mid: Registry,
    post: Registry,
    g: u128,
    c: u128,
)
    requires
        disconnect_effect(pre, mid, g, c),
        disconnect_effect(mid, post, g, c),
    ensures
        post.sview() == mid.sview(),
{
    if pre.has_conn(c) && pre.group_of(c) == g {
        assert(!mid.has_conn(c));
    } else {
        assert(mid.sview() == pre.sview());
    }
}

/// One poll, one group: once a resolution has bound a group to a poll, a
/// later resolution returns that same group and changes no binding,
/// whatever fresh identifier it drew.
pub proof fn lemma_resolve_at_most_one_group(m: Map<i32, u128>, p: i32, f1: u128, f2: u128)
    ensures
        resolve_model(resolve_model(m, p, f1).0, p, f2) == resolve_model(m, p, f1),
{
}

/// Fan-out isolation: broadcast a frame to a group of members, then lose
/// any one member (say its socket write failed and it was disconnected) —
/// every other member of the group still holds the broadcast frame in its
/// queue, exactly where the broadcast put it.
pub proof fn lemma_fanout_isolation(
    pre: Registry,
    mid: Registry,
    post: Registry,
    g: u128,
    m: Seq<char>,
    bad: u128,
)
    requires
        broadcast_effect(pre, mid, g, m),
        disconnect_effect(mid, post, g, bad),
    ensures
        forall|x: u128|
            x != bad && pre.members(g).contains(x) ==> post.has_conn(x) && post.outbox_of(x).len()
                > pre.outbox_of(x).len() && post.outbox_of(x)[pre.outbox_of(x).len() as int] == m,
{
    assert forall|x: u128| x != bad && pre.members(g).contains(x) implies post.has_conn(x)
        && post.outbox_of(x).len() > pre.outbox_of(x).len() && post.outbox_of(x)[pre.outbox_of(
        x,
    ).len() as int] == m by {
        assert(pre.has_conn(x) && pre.group_of(x) == g);
        assert(mid.outbox_of(x) == pre.outbox_of(x).push(m));
        assert(mid.has_conn(x));
        assert(mid.group_of(x) == g);
        if mid.has_conn(bad) && mid.group_of(bad) == g {
            assert(post.outbox_of(x) == mid.outbox_of(x).push(left_chars(bad)));
        } else {
            assert(post.sview() == mid.sview());
        }
    }
}

} // verus!

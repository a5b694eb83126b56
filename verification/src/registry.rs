//! The registry: the single owner of group membership and the
//! poll-to-group mapping.
//!
//! Every connected viewer has one entry here, tagged with its group and
//! carrying its outbox: the queue of text frames that the owning session's
//! write duty drains to the socket.  Fan-out appends to each member's
//! outbox independently, so one dead or slow peer never stalls delivery to
//! the rest.  The caller processes registry operations strictly one at a
//! time; every operation below is a plain sequential state change with a
//! contract over the abstract view.

use vstd::prelude::*;

use crate::ids::fresh_id;
use crate::ids::parse_id;
use crate::ids::parsed_id_of;
use crate::messages::ack_chars;
use crate::messages::ack_message;
use crate::messages::is_directed;
use crate::messages::joined_chars;
use crate::messages::joined_message;
use crate::messages::left_chars;
use crate::messages::left_message;
use crate::messages::target_token;
use crate::messages::directed_target;

verus! {

/// One connected viewer: its identifier, the group it belongs to, and the
/// text frames queued for its socket.
pub struct SessionEntry {
    pub conn_id: u128,
    pub group_id: u128,
    pub outbox: Vec<String>,
}

/// One poll-to-group binding, set on first resolution and never mutated.
pub struct PollBinding {
    pub poll_id: i32,
    pub group_id: u128,
}

/// The abstract value of one session entry.
pub ghost struct ConnInfo {
    pub conn: u128,
    pub group: u128,
    pub outbox: Seq<Seq<char>>,
}

/// The abstract value of a session entry.
pub open spec fn entry_info(e: SessionEntry) -> ConnInfo {
    ConnInfo { conn: e.conn_id, group: e.group_id, outbox: e.outbox.deep_view() }
}

/// Connection identifiers are pairwise distinct.
pub open spec fn sv_wf(s: Seq<ConnInfo>) -> bool {
    forall|i: int, j: int| 0 <= i < j < s.len() ==> s[i].conn != s[j].conn
}

/// Some entry carries the connection `c`.
pub open spec fn sv_has(s: Seq<ConnInfo>, c: u128) -> bool {
    exists|i: int| 0 <= i < s.len() && s[i].conn == c
}

/// The index of the entry carrying `c`.
pub open spec fn sv_index(s: Seq<ConnInfo>, c: u128) -> int {
    choose|i: int| 0 <= i < s.len() && s[i].conn == c
}

/// The entry carrying `c`.
pub open spec fn sv_info(s: Seq<ConnInfo>, c: u128) -> ConnInfo
    recommends
        sv_has(s, c),
{
    s[sv_index(s, c)]
}

/// The membership set of group `g`: the connections whose entry is tagged
/// with `g`.
pub open spec fn sv_members(s: Seq<ConnInfo>, g: u128) -> Set<u128> {
    Set::new(|c: u128| sv_has(s, c) && sv_info(s, c).group == g)
}

/// Under distinct identifiers, the entry at position `i` is the one that
/// `sv_info` denotes for its connection.
proof fn lemma_sv_info_at(s: Seq<ConnInfo>, i: int)
    requires
        sv_wf(s),
        0 <= i < s.len(),
    ensures
        sv_has(s, s[i].conn),
        sv_index(s, s[i].conn) == i,
        sv_info(s, s[i].conn) == s[i],
{
    let c = s[i].conn;
    assert(sv_has(s, c));
    let j = sv_index(s, c);
    assert(0 <= j < s.len() && s[j].conn == c);
    if j < i {
        assert(s[j].conn != s[i].conn);
    } else if i < j {
        assert(s[i].conn != s[j].conn);
    }
}

/// The map that a sequence of poll bindings denotes.
pub open spec fn poll_map_of(s: Seq<PollBinding>) -> Map<i32, u128>
    decreases s.len(),
{
    if s.len() == 0 {
        Map::empty()
    } else {
        poll_map_of(s.drop_last()).insert(s.last().poll_id, s.last().group_id)
    }
}

/// Poll identifiers are pairwise distinct.
pub open spec fn pb_wf(s: Seq<PollBinding>) -> bool {
    forall|i: int, j: int| 0 <= i < j < s.len() ==> s[i].poll_id != s[j].poll_id
}

/// Each binding is in the denoted map.
proof fn lemma_poll_map_at(s: Seq<PollBinding>, i: int)
    requires
        pb_wf(s),
        0 <= i < s.len(),
    ensures
        poll_map_of(s).dom().contains(s[i].poll_id),
        poll_map_of(s)[s[i].poll_id] == s[i].group_id,
    decreases s.len(),
{
    if i == s.len() - 1 {
    } else {
        assert(pb_wf(s.drop_last()));
        lemma_poll_map_at(s.drop_last(), i);
        assert(s.drop_last()[i] == s[i]);
        assert(s[i].poll_id != s.last().poll_id);
    }
}

/// A poll identifier bound by no entry is outside the denoted map.
proof fn lemma_poll_map_absent(s: Seq<PollBinding>, p: i32)
    requires
        forall|i: int| 0 <= i < s.len() ==> s[i].poll_id != p,
    ensures
        !poll_map_of(s).dom().contains(p),
    decreases s.len(),
{
    if s.len() > 0 {
        lemma_poll_map_absent(s.drop_last(), p);
    }
}

/// Lifts the positional description of a connect step to the abstract
/// one: the new entry sits at the end, every group member's outbox grew by
/// the joined notice, and membership of the group gained exactly the new
/// connection.
proof fn lemma_connect_lift(pre: Seq<ConnInfo>, post: Seq<ConnInfo>, g: u128, c: u128)
    requires
        sv_wf(pre),
        !sv_has(pre, c),
        post.len() == pre.len() + 1,
        forall|j: int|
            0 <= j < pre.len() ==> (#[trigger] post[j]).conn == pre[j].conn && post[j].group
                == pre[j].group,
        forall|j: int|
            0 <= j < pre.len() && pre[j].group == g ==> (#[trigger] post[j]).outbox
                == pre[j].outbox.push(joined_chars(c)),
        forall|j: int|
            0 <= j < pre.len() && pre[j].group != g ==> (#[trigger] post[j]).outbox
                == pre[j].outbox,
        post[pre.len() as int] == (ConnInfo { conn: c, group: g, outbox: seq![ack_chars(c)] }),
    ensures
        sv_wf(post),
        sv_has(post, c),
        sv_info(post, c).group == g,
        sv_info(post, c).outbox == seq![ack_chars(c)],
        forall|x: u128| x != c ==> sv_has(post, x) == sv_has(pre, x),
        forall|x: u128|
            x != c && sv_has(pre, x) ==> sv_info(post, x).group == sv_info(pre, x).group,
        forall|x: u128|
            x != c && sv_has(pre, x) && sv_info(pre, x).group == g ==> sv_info(post, x).outbox
                == sv_info(pre, x).outbox.push(joined_chars(c)),
        forall|x: u128|
            x != c && sv_has(pre, x) && sv_info(pre, x).group != g ==> sv_info(post, x).outbox
                == sv_info(pre, x).outbox,
        sv_members(post, g) == sv_members(pre, g).insert(c),
        forall|g2: u128| g2 != g ==> sv_members(post, g2) == sv_members(pre, g2),
{
    let n = pre.len() as int;
    assert forall|j: int| 0 <= j < n implies (#[trigger] pre[j]).conn != c by {
        if pre[j].conn == c {
            assert(sv_has(pre, c));
        }
    }
    assert forall|i: int, j: int| 0 <= i < j < post.len() implies post[i].conn != post[j].conn by {
        if j < n {
        } else {
            assert(post[j].conn == c);
            assert(post[i].conn == pre[i].conn);
        }
    }
    lemma_sv_info_at(post, n);
    assert forall|x: u128|
        x != c && sv_has(pre, x) implies sv_has(post, x) && sv_info(post, x).group == sv_info(
        pre,
        x,
    ).group && ((sv_info(pre, x).group == g) ==> sv_info(post, x).outbox == sv_info(
        pre,
        x,
    ).outbox.push(joined_chars(c))) && ((sv_info(pre, x).group != g) ==> sv_info(post, x).outbox
        == sv_info(pre, x).outbox) by {
        let j = sv_index(pre, x);
        assert(0 <= j < n && pre[j].conn == x);
        lemma_sv_info_at(pre, j);
        assert(post[j].conn == x);
        lemma_sv_info_at(post, j);
    }
    assert forall|x: u128| x != c && sv_has(post, x) implies sv_has(pre, x) by {
        let j = sv_index(post, x);
        assert(0 <= j < post.len() && post[j].conn == x);
        assert(j != n);
        assert(pre[j].conn == x);
    }
    assert(sv_members(post, g) =~= sv_members(pre, g).insert(c));
    assert forall|g2: u128| g2 != g implies sv_members(post, g2) == sv_members(pre, g2) by {
        assert(sv_members(post, g2) =~= sv_members(pre, g2));
    }
}

/// Lifts a per-group outbox push to the abstract view: identities and
/// membership are untouched, and exactly the members of `g` carry the new
/// frame at the end of their outbox.
proof fn lemma_pergroup_push_lift(pre: Seq<ConnInfo>, post: Seq<ConnInfo>, g: u128, m: Seq<char>)
    requires
        sv_wf(pre),
        post.len() == pre.len(),
        forall|j: int|
            0 <= j < pre.len() ==> (#[trigger] post[j]).conn == pre[j].conn && post[j].group
                == pre[j].group,
        forall|j: int|
            0 <= j < pre.len() && pre[j].group == g ==> (#[trigger] post[j]).outbox
                == pre[j].outbox.push(m),
        forall|j: int|
            0 <= j < pre.len() && pre[j].group != g ==> (#[trigger] post[j]).outbox
                == pre[j].outbox,
    ensures
        sv_wf(post),
        forall|x: u128| sv_has(post, x) == sv_has(pre, x),
        forall|x: u128| sv_has(pre, x) ==> sv_info(post, x).group == sv_info(pre, x).group,
        forall|x: u128|
            sv_has(pre, x) && sv_info(pre, x).group == g ==> sv_info(post, x).outbox == sv_info(
                pre,
                x,
            ).outbox.push(m),
        forall|x: u128|
            sv_has(pre, x) && sv_info(pre, x).group != g ==> sv_info(post, x).outbox == sv_info(
                pre,
                x,
            ).outbox,
        forall|g2: u128| sv_members(post, g2) == sv_members(pre, g2),
{
    assert forall|x: u128| sv_has(post, x) == sv_has(pre, x) by {
        if sv_has(pre, x) {
            let j = sv_index(pre, x);
            assert(0 <= j < pre.len() && pre[j].conn == x);
            assert(post[j].conn == x);
            assert(sv_has(post, x));
        }
        if sv_has(post, x) {
            let j = sv_index(post, x);
            assert(0 <= j < post.len() && post[j].conn == x);
            assert(pre[j].conn == x);
            assert(sv_has(pre, x));
        }
    }
    assert forall|x: u128| sv_has(pre, x) implies sv_info(post, x).group == sv_info(pre, x).group
        && ((sv_info(pre, x).group == g) ==> sv_info(post, x).outbox == sv_info(pre, x).outbox.push(
        m,
    )) && ((sv_info(pre, x).group != g) ==> sv_info(post, x).outbox == sv_info(pre, x).outbox) by {
        let j = sv_index(pre, x);
        assert(0 <= j < pre.len() && pre[j].conn == x);
        lemma_sv_info_at(pre, j);
        lemma_sv_info_at(post, j);
    }
    assert forall|g2: u128| sv_members(post, g2) == sv_members(pre, g2) by {
        assert(sv_members(post, g2) =~= sv_members(pre, g2));
    }
}

/// Lifts the removal of the entry at `i` to the abstract view: its
/// connection is gone, every other connection is untouched, and every
/// membership set loses at most that connection.
proof fn lemma_remove_lift(pre: Seq<ConnInfo>, c: u128, i: int)
    requires
        sv_wf(pre),
        0 <= i < pre.len(),
        pre[i].conn == c,
    ensures
        sv_wf(pre.remove(i)),
        !sv_has(pre.remove(i), c),
        forall|x: u128| x != c ==> sv_has(pre.remove(i), x) == sv_has(pre, x),
        forall|x: u128|
            x != c && sv_has(pre, x) ==> sv_info(pre.remove(i), x) == sv_info(pre, x),
        forall|g2: u128| sv_members(pre.remove(i), g2) == sv_members(pre, g2).remove(c),
{
    let mid = pre.remove(i);
    assert forall|j: int| 0 <= j < mid.len() implies (#[trigger] mid[j]).conn != c by {
        if j < i {
            assert(mid[j] == pre[j]);
        } else {
            assert(mid[j] == pre[j + 1]);
        }
    }
    assert(sv_wf(mid));
    assert forall|x: u128| x != c && sv_has(pre, x) implies sv_has(mid, x) && sv_info(mid, x)
        == sv_info(pre, x) by {
        let j = sv_index(pre, x);
        assert(0 <= j < pre.len() && pre[j].conn == x);
        lemma_sv_info_at(pre, j);
        if j < i {
            assert(mid[j] == pre[j]);
            lemma_sv_info_at(mid, j);
        } else {
            assert(j > i);
            assert(mid[j - 1] == pre[j]);
            lemma_sv_info_at(mid, j - 1);
        }
    }
    assert forall|x: u128| x != c && sv_has(mid, x) implies sv_has(pre, x) by {
        let j = sv_index(mid, x);
        assert(0 <= j < mid.len() && mid[j].conn == x);
        if j < i {
            assert(mid[j] == pre[j]);
        } else {
            assert(mid[j] == pre[j + 1]);
        }
    }
    assert forall|g2: u128| sv_members(mid, g2) == sv_members(pre, g2).remove(c) by {
        assert(sv_members(mid, g2) =~= sv_members(pre, g2).remove(c));
    }
}

/// Lifts a change of one entry's outbox to the abstract view: only that
/// connection's outbox changes, and membership is untouched.
proof fn lemma_set_outbox_lift(
    pre: Seq<ConnInfo>,
    post: Seq<ConnInfo>,
    c: u128,
    i: int,
    newbox: Seq<Seq<char>>,
)
    requires
        sv_wf(pre),
        0 <= i < pre.len(),
        pre[i].conn == c,
        post.len() == pre.len(),
        forall|j: int| 0 <= j < pre.len() && j != i ==> #[trigger] post[j] == pre[j],
        post[i].conn == c,
        post[i].group == pre[i].group,
        post[i].outbox == newbox,
    ensures
        sv_wf(post),
        forall|x: u128| sv_has(post, x) == sv_has(pre, x),
        forall|x: u128| sv_has(pre, x) ==> sv_info(post, x).group == sv_info(pre, x).group,
        sv_info(post, c).outbox == newbox,
        sv_info(pre, c) == pre[i],
        forall|x: u128|
            x != c && sv_has(pre, x) ==> sv_info(post, x).outbox == sv_info(pre, x).outbox,
        forall|g2: u128| sv_members(post, g2) == sv_members(pre, g2),
{
    assert forall|j: int| 0 <= j < post.len() implies (#[trigger] post[j]).conn == pre[j].conn by {}
    assert(sv_wf(post));
    assert forall|x: u128| sv_has(post, x) == sv_has(pre, x) by {
        if sv_has(pre, x) {
            let j = sv_index(pre, x);
            assert(0 <= j < pre.len() && pre[j].conn == x);
            assert(post[j].conn == x);
        }
        if sv_has(post, x) {
            let j = sv_index(post, x);
            assert(0 <= j < post.len() && post[j].conn == x);
            assert(pre[j].conn == x);
        }
    }
    lemma_sv_info_at(pre, i);
    lemma_sv_info_at(post, i);
    assert forall|x: u128| sv_has(pre, x) implies sv_info(post, x).group == sv_info(pre, x).group
        && (x != c ==> sv_info(post, x).outbox == sv_info(pre, x).outbox) by {
        let j = sv_index(pre, x);
        assert(0 <= j < pre.len() && pre[j].conn == x);
        lemma_sv_info_at(pre, j);
        lemma_sv_info_at(post, j);
    }
    assert forall|g2: u128| sv_members(post, g2) == sv_members(pre, g2) by {
        assert(sv_members(post, g2) =~= sv_members(pre, g2));
    }
}

/// The registry: all session entries plus the poll-to-group bindings.
pub struct Registry {
    pub sessions: Vec<SessionEntry>,
    pub polls: Vec<PollBinding>,
}

impl Registry {
    /// The abstract session table.
    pub open spec fn sview(self) -> Seq<ConnInfo> {
        self.sessions@.map_values(|e: SessionEntry| entry_info(e))
    }

    /// The abstract poll-to-group mapping.
    pub open spec fn pmap(self) -> Map<i32, u128> {
        poll_map_of(self.polls@)
    }

    /// Well-formedness: distinct connection identifiers, distinct poll
    /// identifiers.
    pub open spec fn wf(self) -> bool {
        sv_wf(self.sview()) && pb_wf(self.polls@)
    }

    /// The connection `c` is registered.
    pub open spec fn has_conn(self, c: u128) -> bool {
        sv_has(self.sview(), c)
    }

    /// The group that connection `c` belongs to.
    pub open spec fn group_of(self, c: u128) -> u128
        recommends
            self.has_conn(c),
    {
        sv_info(self.sview(), c).group
    }

    /// The frames queued for connection `c`, oldest first.
    pub open spec fn outbox_of(self, c: u128) -> Seq<Seq<char>>
        recommends
            self.has_conn(c),
    {
        sv_info(self.sview(), c).outbox
    }

    /// The membership set of group `g`.
    pub open spec fn members(self, g: u128) -> Set<u128> {
        sv_members(self.sview(), g)
    }

    /// The group bound to poll `p`, if any.
    pub open spec fn poll_group(self, p: i32) -> Option<u128> {
        if self.pmap().dom().contains(p) {
            Some(self.pmap()[p])
        } else {
            None
        }
    }

    /// An empty registry: no sessions, no bindings.
    pub fn new() -> (r: Registry)
        ensures
            r.wf(),
            r.sview() == Seq::<ConnInfo>::empty(),
            r.pmap() == Map::<i32, u128>::empty(),
    {
        let r = Registry { sessions: Vec::new(), polls: Vec::new() };
        proof {
            assert(r.sview() =~= Seq::<ConnInfo>::empty());
        }
        r
    }

    /// The position of connection `c` in the session table.
    fn find_session_index(&self, c: u128) -> (r: Option<usize>)
        ensures
            match r {
                Some(i) => i < self.sview().len() && self.sview()[i as int].conn == c,
                None => !self.has_conn(c),
            },
    {
        let n = self.sessions.len();
        let mut i: usize = 0;
        while i < n
            invariant
                i <= n,
                n == self.sessions@.len(),
                forall|j: int| 0 <= j < i ==> (#[trigger] self.sview()[j]).conn != c,
            decreases n - i,
        {
            if self.sessions[i].conn_id == c {
                return Some(i);
            }
            i = i + 1;
        }
        None
    }

    /// Registers `conn_id` as a member of `group_id`: every current member
    /// of the group is told that the peer joined, and the new connection's
    /// outbox starts with its acknowledgment.  A connection identifier is
    /// drawn fresh at connect time and never reused, so it must not be
    /// registered yet; `has_connection` tells a caller whether it is.
    pub fn connect(&mut self, group_id: u128, conn_id: u128)
        requires
            old(self).wf(),
            !old(self).has_conn(conn_id),
        ensures
            final(self).wf(),
            final(self).pmap() == old(self).pmap(),
            final(self).has_conn(conn_id),
            final(self).group_of(conn_id) == group_id,
            final(self).outbox_of(conn_id) == seq![ack_chars(conn_id)],
            forall|x: u128| x != conn_id ==> final(self).has_conn(x) == old(self).has_conn(x),
            forall|x: u128|
                x != conn_id && old(self).has_conn(x) ==> final(self).group_of(x) == old(
                    self,
                ).group_of(x),
            forall|x: u128|
                x != conn_id && old(self).has_conn(x) && old(self).group_of(x) == group_id
                    ==> final(self).outbox_of(x) == old(self).outbox_of(x).push(
                    joined_chars(conn_id),
                ),
            forall|x: u128|
                x != conn_id && old(self).has_conn(x) && old(self).group_of(x) != group_id
                    ==> final(self).outbox_of(x) == old(self).outbox_of(x),
            final(self).members(group_id) == old(self).members(group_id).insert(conn_id),
            forall|g2: u128|
                g2 != group_id ==> final(self).members(g2) == old(self).members(g2),
            crate::laws::connect_effect(*old(self), *final(self), group_id, conn_id),
    {
        let note = joined_message(conn_id);
        self.notify_group(group_id, note);
        let mut firstbox: Vec<String> = Vec::new();
        firstbox.push(ack_message(conn_id));
        let entry = SessionEntry { conn_id: conn_id, group_id: group_id, outbox: firstbox };
        proof {
            assert(entry_info(entry).outbox =~= seq![ack_chars(conn_id)]);
        }
        let ghost mid = self.sview();
        self.sessions.push(entry);
        proof {
            assert(self.sview() =~= mid.push(entry_info(entry)));
            lemma_connect_lift(old(self).sview(), self.sview(), group_id, conn_id);
        }
    }

    /// Appends `note` to the outbox of every current member of `group_id`.
    /// The workhorse of fan-out: each member's queue grows independently,
    /// so no single peer can affect delivery to another.
    fn notify_group(&mut self, group_id: u128, note: String)
        ensures
            final(self).polls@ == old(self).polls@,
            final(self).sview().len() == old(self).sview().len(),
            forall|j: int|
                0 <= j < old(self).sview().len() ==> (#[trigger] final(self).sview()[j]).conn
                    == old(self).sview()[j].conn && final(self).sview()[j].group == old(
                    self,
                ).sview()[j].group,
            forall|j: int|
                0 <= j < old(self).sview().len() && old(self).sview()[j].group == group_id ==> (
                #[trigger] final(self).sview()[j]).outbox == old(self).sview()[j].outbox.push(
                    note@,
                ),
            forall|j: int|
                0 <= j < old(self).sview().len() && old(self).sview()[j].group != group_id ==> (
                #[trigger] final(self).sview()[j]).outbox == old(self).sview()[j].outbox,
    {
        let n = self.sessions.len();
        let mut i: usize = 0;
        while i < n
            invariant
                i <= n,
                n == self.sessions@.len(),
                n == old(self).sessions@.len(),
                self.polls@ == old(self).polls@,
                forall|j: int|
                    0 <= j < n ==> (#[trigger] self.sview()[j]).conn == old(self).sview()[j].conn
                        && self.sview()[j].group == old(self).sview()[j].group,
                forall|j: int|
                    0 <= j < i && old(self).sview()[j].group == group_id ==> (
                    #[trigger] self.sview()[j]).outbox == old(self).sview()[j].outbox.push(note@),
                forall|j: int|
                    0 <= j < i && old(self).sview()[j].group != group_id ==> (
                    #[trigger] self.sview()[j]).outbox == old(self).sview()[j].outbox,
                forall|j: int|
                    i <= j < n ==> (#[trigger] self.sview()[j]).outbox == old(
                        self,
                    ).sview()[j].outbox,
            decreases n - i,
        {
            let ghost pv = self.sview();
            if self.sessions[i].group_id == group_id {
                let ghost prev = self.sessions@;
                let mut e = self.sessions.remove(i);
                let ghost e0 = e;
                e.outbox.push(note.clone());
                let ghost e1 = e;
                proof {
                    assert(e1.outbox.deep_view() =~= e0.outbox.deep_view().push(note@));
                }
                self.sessions.insert(i, e);
                proof {
                    assert(self.sessions@ =~= prev.update(i as int, e1));
                    assert forall|j: int| 0 <= j < n && j != i implies #[trigger] self.sview()[j]
                        == pv[j] by {
                        assert(self.sessions@[j] == prev[j]);
                    }
                    assert(self.sview()[i as int].conn == pv[i as int].conn);
                    assert(self.sview()[i as int].group == pv[i as int].group);
                    assert(self.sview()[i as int].outbox == pv[i as int].outbox.push(note@));
                }
            }
            i = i + 1;
        }
    }

    /// Removes `conn_id` from `group_id` and from the session table, and
    /// tells the remaining members of the group that the peer left.  A
    /// connection that is not a member of the group is nothing to remove:
    /// the call changes nothing, so a duplicate disconnect is harmless.
    pub fn disconnect(&mut self, group_id: u128, conn_id: u128)
        requires
            old(self).wf(),
        ensures
            final(self).wf(),
            final(self).pmap() == old(self).pmap(),
            !(old(self).has_conn(conn_id) && old(self).group_of(conn_id) == group_id) ==> final(self).sview() == old(self).sview(),
            (old(self).has_conn(conn_id) && old(self).group_of(conn_id) == group_id) ==> !final(self).has_conn(conn_id),
            forall|x: u128| x != conn_id ==> final(self).has_conn(x) == old(self).has_conn(x),
            forall|x: u128|
                x != conn_id && old(self).has_conn(x) ==> final(self).group_of(x) == old(
                    self,
                ).group_of(x),
            (old(self).has_conn(conn_id) && old(self).group_of(conn_id) == group_id)
                ==> forall|x: u128|
                x != conn_id && old(self).has_conn(x) && old(self).group_of(x) == group_id
                    ==> final(self).outbox_of(x) == old(self).outbox_of(x).push(
                    left_chars(conn_id),
                ),
            (old(self).has_conn(conn_id) && old(self).group_of(conn_id) == group_id)
                ==> forall|x: u128|
                x != conn_id && old(self).has_conn(x) && old(self).group_of(x) != group_id
                    ==> final(self).outbox_of(x) == old(self).outbox_of(x),
            final(self).members(group_id) == old(self).members(group_id).remove(conn_id),
            forall|g2: u128|
                g2 != group_id ==> final(self).members(g2) == old(self).members(g2),
            crate::laws::disconnect_effect(*old(self), *final(self), group_id, conn_id),
    {
        let found = self.find_session_index(conn_id);
        match found {
            None => {
                proof {
                    assert(self.members(group_id) =~= old(self).members(group_id).remove(
                        conn_id,
                    ));
                }
            },
            Some(i) => {
                let ghost pre = self.sview();
                proof {
                    lemma_sv_info_at(pre, i as int);
                }
                if self.sessions[i].group_id != group_id {
                    proof {
                        assert(old(self).group_of(conn_id) != group_id);
                        assert(self.members(group_id) =~= old(self).members(group_id).remove(
                            conn_id,
                        ));
                    }
                } else {
                    let _removed = self.sessions.remove(i);
                    proof {
                        assert(self.sview() =~= pre.remove(i as int));
                        lemma_remove_lift(pre, conn_id, i as int);
                    }
                    let ghost mid = self.sview();
                    let note = left_message(conn_id);
                    self.notify_group(group_id, note);
                    proof {
                        lemma_pergroup_push_lift(mid, self.sview(), group_id, left_chars(conn_id));
                        assert forall|x: u128|
                            x != conn_id && old(self).has_conn(x) && old(self).group_of(x)
                                == group_id implies self.outbox_of(x) == old(self).outbox_of(
                            x,
                        ).push(left_chars(conn_id)) by {
                            assert(sv_info(mid, x) == sv_info(pre, x));
                        }
                        assert forall|g2: u128| true implies sv_members(self.sview(), g2)
                            == sv_members(pre, g2).remove(conn_id) by {
                            assert(sv_members(self.sview(), g2) == sv_members(mid, g2));
                        }
                        assert forall|g2: u128| g2 != group_id implies self.members(g2) == old(
                            self,
                        ).members(g2) by {
                            assert(sv_members(pre, g2).remove(conn_id) =~= sv_members(pre, g2));
                        }
                    }
                }
            },
        }
    }

    /// Delivers `payload` to every current member of `group_id`: the frame
    /// lands at the end of each member's outbox, and nothing else changes.
    pub fn broadcast(&mut self, group_id: u128, payload: &str)
        requires
            old(self).wf(),
        ensures
            final(self).wf(),
            final(self).pmap() == old(self).pmap(),
            forall|x: u128| final(self).has_conn(x) == old(self).has_conn(x),
            forall|x: u128|
                old(self).has_conn(x) ==> final(self).group_of(x) == old(self).group_of(x),
            forall|x: u128|
                old(self).has_conn(x) && old(self).group_of(x) == group_id ==> final(self).outbox_of(x) == old(self).outbox_of(x).push(payload@),
            forall|x: u128|
                old(self).has_conn(x) && old(self).group_of(x) != group_id ==> final(self).outbox_of(x) == old(self).outbox_of(x),
            forall|g2: u128| final(self).members(g2) == old(self).members(g2),
            crate::laws::broadcast_effect(*old(self), *final(self), group_id, payload@),
    {
        let note = String::from_str(payload);
        self.notify_group(group_id, note);
        proof {
            lemma_pergroup_push_lift(old(self).sview(), self.sview(), group_id, payload@);
        }
    }

    /// Delivers `payload` to the single connection `conn_id`, wherever it
    /// is registered; a target that is not registered receives nothing and
    /// nothing changes.
    pub fn deliver_to(&mut self, conn_id: u128, payload: &str)
        requires
            old(self).wf(),
        ensures
            final(self).wf(),
            final(self).pmap() == old(self).pmap(),
            forall|x: u128| final(self).has_conn(x) == old(self).has_conn(x),
            forall|x: u128|
                old(self).has_conn(x) ==> final(self).group_of(x) == old(self).group_of(x),
            old(self).has_conn(conn_id) ==> final(self).outbox_of(conn_id) == old(
                self,
            ).outbox_of(conn_id).push(payload@),
            forall|x: u128|
                x != conn_id && old(self).has_conn(x) ==> final(self).outbox_of(x) == old(
                    self,
                ).outbox_of(x),
            !old(self).has_conn(conn_id) ==> final(self).sview() == old(self).sview(),
            forall|g2: u128| final(self).members(g2) == old(self).members(g2),
    {
        match self.find_session_index(conn_id) {
            None => {},
            Some(i) => {
                let ghost pre = self.sview();
                proof {
                    lemma_sv_info_at(pre, i as int);
                }
                let ghost prev = self.sessions@;
                let mut e = self.sessions.remove(i);
                let ghost e0 = e;
                e.outbox.push(String::from_str(payload));
                let ghost e1 = e;
                proof {
                    assert(e1.outbox.deep_view() =~= e0.outbox.deep_view().push(payload@));
                }
                self.sessions.insert(i, e);
                proof {
                    assert(self.sessions@ =~= prev.update(i as int, e1));
                    assert forall|j: int|
                        0 <= j < pre.len() && j != i implies #[trigger] self.sview()[j]
                        == pre[j] by {
                        assert(self.sessions@[j] == prev[j]);
                    }
                    lemma_set_outbox_lift(
                        pre,
                        self.sview(),
                        conn_id,
                        i as int,
                        pre[i as int].outbox.push(payload@),
                    );
                }
            },
        }
    }

    /// The position of the binding for `p`, if any.
    fn find_poll_index(&self, p: i32) -> (r: Option<usize>)
        requires
            self.wf(),
        ensures
            match r {
                Some(i) => i < self.polls@.len() && self.polls@[i as int].poll_id == p,
                None => !self.pmap().dom().contains(p),
            },
    {
        let n = self.polls.len();
        let mut i: usize = 0;
        while i < n
            invariant
                i <= n,
                n == self.polls@.len(),
                forall|j: int| 0 <= j < i ==> (#[trigger] self.polls@[j]).poll_id != p,
            decreases n - i,
        {
            if self.polls[i].poll_id == p {
                return Some(i);
            }
            i = i + 1;
        }
        proof {
            lemma_poll_map_absent(self.polls@, p);
        }
        None
    }

    /// Returns the group bound to `poll_id`, binding a freshly minted
    /// group identifier first when the poll has none yet.  The binding,
    /// once made, never changes: a later call returns the same group and
    /// leaves the registry as it is.
    pub fn resolve_or_create_group(&mut self, poll_id: i32) -> (g: u128)
        requires
            old(self).wf(),
        ensures
            final(self).wf(),
            final(self).sview() == old(self).sview(),
            (final(self).pmap(), g) == resolve_model(old(self).pmap(), poll_id, g),
            final(self).poll_group(poll_id) == Some(g),
    {
        match self.find_poll_index(poll_id) {
            Some(i) => {
                proof {
                    lemma_poll_map_at(self.polls@, i as int);
                }
                self.polls[i].group_id
            },
            None => {
                let g = fresh_id();
                let ghost prevpolls = self.polls@;
                self.polls.push(PollBinding { poll_id: poll_id, group_id: g });
                proof {
                    assert(self.polls@.drop_last() =~= prevpolls);
                    assert forall|j: int| 0 <= j < prevpolls.len() implies (
                    #[trigger] prevpolls[j]).poll_id != poll_id by {
                        lemma_poll_map_at(prevpolls, j);
                    }
                    assert(pb_wf(self.polls@));
                }
                g
            },
        }
    }

    /// Resolves the poll's group and delivers `payload` to each of its
    /// current members.  Returns whether the poll had a group at all; a
    /// poll that nobody ever connected to has none, and the call then
    /// changes nothing.
    pub fn notify_group_by_poll(&mut self, poll_id: i32, payload: &str) -> (found: bool)
        requires
            old(self).wf(),
        ensures
            final(self).wf(),
            final(self).pmap() == old(self).pmap(),
            found == old(self).pmap().dom().contains(poll_id),
            !found ==> final(self).sview() == old(self).sview(),
            forall|x: u128| final(self).has_conn(x) == old(self).has_conn(x),
            forall|x: u128|
                old(self).has_conn(x) ==> final(self).group_of(x) == old(self).group_of(x),
            found ==> forall|x: u128|
                old(self).has_conn(x) && old(self).group_of(x) == old(self).pmap()[poll_id]
                    ==> final(self).outbox_of(x) == old(self).outbox_of(x).push(payload@),
            found ==> forall|x: u128|
                old(self).has_conn(x) && old(self).group_of(x) != old(self).pmap()[poll_id]
                    ==> final(self).outbox_of(x) == old(self).outbox_of(x),
            forall|g2: u128| final(self).members(g2) == old(self).members(g2),
    {
        match self.find_poll_index(poll_id) {
            Some(i) => {
                proof {
                    lemma_poll_map_at(self.polls@, i as int);
                }
                let g = self.polls[i].group_id;
                self.broadcast(g, payload);
                true
            },
            None => false,
        }
    }

    /// Routes one inbound client text: a directed message goes to the
    /// target it names alone (wherever that target is registered, and
    /// nowhere when the target text does not parse); any other text is
    /// broadcast to the sender's whole group.
    pub fn handle_client_text(&mut self, group_id: u128, msg: &str)
        requires
            old(self).wf(),
        ensures
            final(self).wf(),
            final(self).pmap() == old(self).pmap(),
            forall|x: u128| final(self).has_conn(x) == old(self).has_conn(x),
            forall|x: u128|
                old(self).has_conn(x) ==> final(self).group_of(x) == old(self).group_of(x),
            forall|g2: u128| final(self).members(g2) == old(self).members(g2),
            !is_directed(msg@) ==> forall|x: u128|
                old(self).has_conn(x) && old(self).group_of(x) == group_id ==> final(self).outbox_of(x) == old(self).outbox_of(x).push(msg@),
            !is_directed(msg@) ==> forall|x: u128|
                old(self).has_conn(x) && old(self).group_of(x) != group_id ==> final(self).outbox_of(x) == old(self).outbox_of(x),
            is_directed(msg@) ==> match parsed_id_of(target_token(msg@)) {
                Some(t) => (old(self).has_conn(t) ==> final(self).outbox_of(t) == old(
                    self,
                ).outbox_of(t).push(msg@)) && (forall|x: u128|
                    x != t && old(self).has_conn(x) ==> final(self).outbox_of(x) == old(
                        self,
                    ).outbox_of(x)) && (!old(self).has_conn(t) ==> final(self).sview() == old(
                    self,
                ).sview()),
                None => final(self).sview() == old(self).sview(),
            },
            is_directed(msg@) ==> forall|n: u128|
                target_token(msg@) == #[trigger] crate::text::id_chars(n) ==> parsed_id_of(
                    target_token(msg@),
                ) == Some(n),
    {
        match directed_target(msg) {
            None => {
                self.broadcast(group_id, msg);
            },
            Some(token) => {
                match parse_id(token) {
                    Some(t) => {
                        self.deliver_to(t, msg);
                    },
                    None => {},
                }
            },
        }
    }

    /// Hands the caller everything queued for `conn_id`, oldest first,
    /// leaving the connection's outbox empty.  The owning session's write
    /// duty drains the queue this way and writes the frames to its socket.
    pub fn take_outbox(&mut self, conn_id: u128) -> (r: Vec<String>)
        requires
            old(self).wf(),
        ensures
            final(self).wf(),
            final(self).pmap() == old(self).pmap(),
            forall|x: u128| final(self).has_conn(x) == old(self).has_conn(x),
            forall|x: u128|
                old(self).has_conn(x) ==> final(self).group_of(x) == old(self).group_of(x),
            forall|g2: u128| final(self).members(g2) == old(self).members(g2),
            old(self).has_conn(conn_id) ==> r.deep_view() == old(self).outbox_of(conn_id)
                && final(self).outbox_of(conn_id) == Seq::<Seq<char>>::empty(),
            forall|x: u128|
                x != conn_id && old(self).has_conn(x) ==> final(self).outbox_of(x) == old(
                    self,
                ).outbox_of(x),
            !old(self).has_conn(conn_id) ==> final(self).sview() == old(self).sview()
                && r.deep_view() == Seq::<Seq<char>>::empty(),
    {
        match self.find_session_index(conn_id) {
            None => {
                let r: Vec<String> = Vec::new();
                proof {
                    assert(r.deep_view() =~= Seq::<Seq<char>>::empty());
                }
                r
            },
            Some(i) => {
                let ghost pre = self.sview();
                proof {
                    lemma_sv_info_at(pre, i as int);
                }
                let ghost prev = self.sessions@;
                let e = self.sessions.remove(i);
                let fresh = SessionEntry {
                    conn_id: e.conn_id,
                    group_id: e.group_id,
                    outbox: Vec::new(),
                };
                self.sessions.insert(i, fresh);
                proof {
                    assert(self.sessions@ =~= prev.update(i as int, self.sessions@[i as int]));
                    assert forall|j: int|
                        0 <= j < pre.len() && j != i implies #[trigger] self.sview()[j]
                        == pre[j] by {
                        assert(self.sessions@[j] == prev[j]);
                    }
                    assert(self.sview()[i as int].outbox =~= Seq::<Seq<char>>::empty());
                    lemma_set_outbox_lift(
                        pre,
                        self.sview(),
                        conn_id,
                        i as int,
                        Seq::<Seq<char>>::empty(),
                    );
                }
                e.outbox
            },
        }
    }

    /// Whether `conn_id` is currently a member of `group_id`.
    pub fn is_member(&self, group_id: u128, conn_id: u128) -> (r: bool)
        requires
            self.wf(),
        ensures
            r == self.members(group_id).contains(conn_id),
    {
        match self.find_session_index(conn_id) {
            None => false,
            Some(i) => {
                proof {
                    lemma_sv_info_at(self.sview(), i as int);
                }
                self.sessions[i].group_id == group_id
            },
        }
    }

    /// Whether `conn_id` is registered at all, in any group.
    pub fn has_connection(&self, conn_id: u128) -> (r: bool)
        ensures
            r == self.has_conn(conn_id),
    {
        match self.find_session_index(conn_id) {
            None => false,
            Some(_) => true,
        }
    }

    /// How many connections are registered, over all groups.
    pub fn connection_count(&self) -> (n: usize)
        ensures
            n == self.sview().len(),
    {
        self.sessions.len()
    }
}

/// What resolving a poll does to the poll-to-group mapping: an existing
/// binding is returned as it is; otherwise the supplied fresh identifier
/// is bound.  Resolution never rebinds a poll.
pub open spec fn resolve_model(m: Map<i32, u128>, p: i32, fresh: u128) -> (Map<i32, u128>, u128) {
    if m.dom().contains(p) {
        (m, m[p])
    } else {
        (m.insert(p, fresh), fresh)
    }
}

} // verus!

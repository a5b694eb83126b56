//! Wire messages: the text frames the core sends and the one inbound
//! convention it reads.
//!
//! All outbound frames are newline-free single lines: greetings and
//! peer join/leave notices around a connection identifier, and the JSON
//! payloads pushed by the vote and close handlers.  Inbound, a client text
//! beginning with the two-character marker `\w`, a space and a target
//! connection identifier asks for directed delivery to that target alone.

use vstd::prelude::*;
use vstd::string::StrSliceExecFns;
use vstd::string::StringExecFns;

use crate::text::dec_chars;
use crate::text::id_chars;
use crate::text::push_i32_dec;
use crate::text::push_id;

verus! {

/// The acknowledgment sent to a connection right after it joins.
pub open spec fn ack_chars(conn: u128) -> Seq<char> {
    "your user id is "@ + id_chars(conn)
}

/// The notice sent to the other members of a group when a peer joins.
pub open spec fn joined_chars(conn: u128) -> Seq<char> {
    "user "@ + id_chars(conn) + " just joined the poll"@
}

/// The notice sent to the remaining members of a group when a peer leaves.
pub open spec fn left_chars(conn: u128) -> Seq<char> {
    id_chars(conn) + " disconnected."@
}

/// The JSON payload pushed when a vote lands on an option of a poll.
pub open spec fn vote_update_chars(poll_id: int, option_text: Seq<char>, votes: int) -> Seq<
    char,
> {
    "{\"poll_id\": "@ + dec_chars(poll_id) + ", \"option_text\": \""@ + option_text
        + "\", \"vote_count\": "@ + dec_chars(votes) + "}"@
}

/// The JSON payload pushed when a poll is closed.
pub open spec fn poll_closed_chars(poll_id: int) -> Seq<char> {
    "{\"poll_id\": "@ + dec_chars(poll_id) + ", \"closed\": true}"@
}

/// Builds the join acknowledgment for `conn`.
pub fn ack_message(conn: u128) -> (r: String)
    ensures
        r@ == ack_chars(conn),
{
    let mut s = String::from_str("your user id is ");
    push_id(&mut s, conn);
    proof {
        assert(s@ =~= ack_chars(conn));
    }
    s
}

/// Builds the peer-joined notice for `conn`.
pub fn joined_message(conn: u128) -> (r: String)
    ensures
        r@ == joined_chars(conn),
{
    let mut s = String::from_str("user ");
    push_id(&mut s, conn);
    s.append(" just joined the poll");
    proof {
        assert(s@ =~= joined_chars(conn));
    }
    s
}

/// Builds the peer-left notice for `conn`.
pub fn left_message(conn: u128) -> (r: String)
    ensures
        r@ == left_chars(conn),
{
    let mut s = String::new();
    push_id(&mut s, conn);
    s.append(" disconnected.");
    proof {
        assert(s@ =~= left_chars(conn));
    }
    s
}

/// Builds the vote-update JSON payload.
pub fn vote_update_message(poll_id: i32, option_text: &str, votes: i32) -> (r: String)
    ensures
        r@ == vote_update_chars(poll_id as int, option_text@, votes as int),
{
    let mut s = String::from_str("{\"poll_id\": ");
    push_i32_dec(&mut s, poll_id);
    s.append(", \"option_text\": \"");
    s.append(option_text);
    s.append("\", \"vote_count\": ");
    push_i32_dec(&mut s, votes);
    s.append("}");
    proof {
        assert(s@ =~= vote_update_chars(poll_id as int, option_text@, votes as int));
    }
    s
}

/// Builds the poll-closed JSON payload.
pub fn poll_closed_message(poll_id: i32) -> (r: String)
    ensures
        r@ == poll_closed_chars(poll_id as int),
{
    let mut s = String::from_str("{\"poll_id\": ");
    push_i32_dec(&mut s, poll_id);
    s.append(", \"closed\": true}");
    proof {
        assert(s@ =~= poll_closed_chars(poll_id as int));
    }
    s
}

/// True when a client text asks for directed delivery: the marker
/// characters, then a space, then the target identifier.
pub open spec fn is_directed(m: Seq<char>) -> bool {
    m.len() >= 3 && m[0] == '\\' && m[1] == 'w' && m[2] == ' '
}

/// The index of the first space at or after position `i`, or the end of
/// the text when there is none.
pub open spec fn token_end(m: Seq<char>, i: int) -> int
    decreases m.len() - i,
{
    if i >= m.len() {
        m.len() as int
    } else if m[i] == ' ' {
        i
    } else {
        token_end(m, i + 1)
    }
}

/// The target identifier text of a directed message: the characters after
/// the marker and its space, up to the next space or the end.
pub open spec fn target_token(m: Seq<char>) -> Seq<char>
    recommends
        is_directed(m),
{
    m.subrange(3, token_end(m, 3))
}

/// Tokens end only at spaces: a stretch of non-space characters runs to
/// the end of the text.
proof fn lemma_token_end_past_nonspace(m: Seq<char>, i: int)
    requires
        0 <= i <= m.len(),
        forall|j: int| i <= j < m.len() ==> m[j] != ' ',
    ensures
        token_end(m, i) == m.len(),
    decreases m.len() - i,
{
    if i < m.len() {
        lemma_token_end_past_nonspace(m, i + 1);
    }
}

/// The directed form addressed to an identifier names exactly that
/// identifier: the marker, a space and the identifier's hyphenated text
/// make a directed message whose target token is that text.
pub proof fn lemma_directed_form(n: u128)
    ensures
        is_directed("\\w "@ + crate::text::id_chars(n)),
        target_token("\\w "@ + crate::text::id_chars(n)) == crate::text::id_chars(n),
{
    reveal_strlit("\\w ");
    let m = "\\w "@ + crate::text::id_chars(n);
    assert(m[0] == '\\' && m[1] == 'w' && m[2] == ' ');
    crate::text::lemma_id_chars_no_space(n);
    assert forall|j: int| 3 <= j < m.len() implies m[j] != ' ' by {
        assert(m[j] == crate::text::id_chars(n)[j - 3]);
    }
    lemma_token_end_past_nonspace(m, 3);
    assert(m.subrange(3, m.len() as int) =~= crate::text::id_chars(n));
}

/// Extracts the target identifier text of a directed message, or reports
/// that the message is not directed.
pub fn directed_target(msg: &str) -> (r: Option<&str>)
    ensures
        match r {
            Some(t) => is_directed(msg@) && t@ == target_token(msg@),
            None => !is_directed(msg@),
        },
{
    let n = msg.unicode_len();
    if n < 3 {
        return None;
    }
    if msg.get_char(0) != '\\' || msg.get_char(1) != 'w' || msg.get_char(2) != ' ' {
        return None;
    }
    let mut i: usize = 3;
    while i < n && msg.get_char(i) != ' '
        invariant
            3 <= i <= n,
            n == msg@.len(),
            token_end(msg@, 3) == token_end(msg@, i as int),
        decreases n - i,
    {
        i = i + 1;
    }
    proof {
        assert(token_end(msg@, i as int) == i);
    }
    Some(msg.substring_char(3, i))
}

} // verus!

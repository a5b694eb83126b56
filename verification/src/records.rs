//! Plain data records shared with the surrounding poll service.
//!
//! The push entry points carry facts about polls, options and votes; the
//! authentication layer stores credentials.  These records are plain
//! values: the surrounding service converts to and from its own wire and
//! storage shapes at the boundary.

use vstd::prelude::*;

verus! {

/// One option of a poll together with its current vote count.
pub struct PollOptions {
    pub option_text: String,
    pub votes: i32,
}

/// A request to create a poll with a title and its options.
pub struct CreatePollRequest {
    pub title: String,
    pub creator: String,
    pub options: Vec<String>,
}

/// A request to vote for an option of a poll.
pub struct VoteRequest {
    pub username: String,
    pub option_text: String,
}

/// The fact pushed to viewers when a vote lands.
pub struct VoteUpdate {
    pub poll_id: i32,
    pub option_id: i32,
    pub votes: i32,
}

/// A stored passkey credential of a user.
pub struct Credential {
    pub id: i32,
    pub user_id: i32,
    pub credential_id: Vec<u8>,
    pub public_key: Vec<u8>,
    pub counter: i32,
}

impl Credential {
    /// A credential record with the given fields.
    pub fn new(id: i32, user_id: i32, credential_id: Vec<u8>, public_key: Vec<u8>, counter: i32) -> (r: Self)
        ensures
            r.id == id,
            r.user_id == user_id,
            r.credential_id == credential_id,
            r.public_key == public_key,
            r.counter == counter,
    {
        Self { id, user_id, credential_id, public_key, counter }
    }
}

} // verus!

//! Live fan-out core for poll viewers.
//!
//! Many viewers of one poll hold persistent bidirectional connections and
//! receive live events (new votes, poll closed, peers joining and leaving)
//! without polling the data store.  This crate holds the verified core of
//! that subsystem: the registry that owns group membership and the
//! poll-to-group mapping, the per-connection session state machine, the
//! heartbeat monitor that reclaims dead connections, and the renderers for
//! the wire messages.  Sockets, timers and the surrounding HTTP layer stay
//! outside; they hand the core plain values and perform the actions it
//! decides on.

pub mod heartbeat;
pub mod ids;
pub mod laws;
pub mod messages;
pub mod records;
pub mod registry;
pub mod session;
pub mod text;

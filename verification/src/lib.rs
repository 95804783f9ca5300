//! Client-side protocol engine for a ZooKeeper-style coordination service.
//!
//! The engine owns one logical session: it frames requests, allocates
//! transaction ids, tracks outstanding requests, routes replies and watch
//! events, and follows the session through handshake, loss and expiry. It
//! performs no I/O itself; a driver feeds it records and timer ticks and
//! writes out the frames it hands back.

pub mod client;
pub mod codec;
pub mod packetizer;
pub mod pending;
pub mod session;
pub mod types;
pub mod watch;
pub mod wire;
pub mod xid;

pub use client::{ClientError, ZooKeeper};
pub use codec::{EncodeError, ReplyHeader};
pub use packetizer::{EnqueueError, Packetizer, Routed, Tick};
pub use pending::{Completion, Failure, Pending, PendingTable};
pub use session::{Handshake, SessionManager, SessionState};
pub use types::{EventKind, OpCode, Request, Response, Stat, WatchedEvent, ZkError};
pub use watch::{Watch, WatchKind, WatchRegistry};
pub use wire::DecodeError;

//! The values that travel in records: requests, responses, node metadata,
//! server error kinds and watch events, each with its mathematical view.

use vstd::prelude::*;

verus! {

/// The transaction id that marks a ping, outside normal correlation.
pub const PING_XID: i32 = -2;

/// The transaction id that marks an unsolicited watch event.
pub const EVENT_XID: i32 = -1;

/// The opcode of an existence check.
pub const OP_EXISTS: i32 = 3;

/// The opcode of a ping.
pub const OP_PING: i32 = 11;

/// Metadata of a node, as the server reports it.
#[derive(Clone, Copy, Debug, PartialEq, Eq, Structural)]
pub struct Stat {
    /// Transaction that created the node.
    pub czxid: i64,
    /// Transaction that last modified the node.
    pub mzxid: i64,
    /// Creation time, in milliseconds since the epoch.
    pub ctime: i64,
    /// Last modification time, in milliseconds since the epoch.
    pub mtime: i64,
    /// Number of changes to the node's data.
    pub version: i32,
    /// Number of changes to the node's children.
    pub cversion: i32,
    /// Number of changes to the node's access list.
    pub aversion: i32,
    /// Session that owns the node if it is ephemeral, else 0.
    pub ephemeral_owner: i64,
    /// Length of the node's data.
    pub data_length: i32,
    /// Number of children.
    pub num_children: i32,
    /// Transaction that last modified the node's children.
    pub pzxid: i64,
}

/// The operations that carry an opcode on the wire.
#[derive(Clone, Copy, Debug, PartialEq, Eq, Structural)]
pub enum OpCode {
    /// Liveness probe with no payload.
    Ping,
    /// Existence check of one path.
    Exists,
}

impl OpCode {
    /// The number that stands for the operation on the wire.
    pub open spec fn spec_code(self) -> int {
        match self {
            OpCode::Ping => OP_PING as int,
            OpCode::Exists => OP_EXISTS as int,
        }
    }

    /// The operation that `code` stands for, if any.
    pub open spec fn spec_from_code(code: int) -> Option<OpCode> {
        if code == OP_PING {
            Some(OpCode::Ping)
        } else if code == OP_EXISTS {
            Some(OpCode::Exists)
        } else {
            None
        }
    }

    /// The number that stands for the operation on the wire.
    pub fn code(self) -> (r: i32)
        ensures
            r == self.spec_code(),
            OpCode::spec_from_code(r as int) == Some(self),
    {
        match self {
            OpCode::Ping => OP_PING,
            OpCode::Exists => OP_EXISTS,
        }
    }

    /// The operation that `code` stands for, if any.
    pub fn from_code(code: i32) -> (r: Option<OpCode>)
        ensures
            r == OpCode::spec_from_code(code as int),
            r matches Some(op) ==> op.spec_code() == code,
    {
        if code == OP_PING {
            Some(OpCode::Ping)
        } else if code == OP_EXISTS {
            Some(OpCode::Exists)
        } else {
            None
        }
    }
}

/// A request to the server.
#[derive(Clone, Debug, PartialEq, Eq)]
pub enum Request {
    /// The handshake that opens or resumes a session.
    Connect {
        protocol_version: i32,
        last_zxid_seen: i64,
        timeout: i32,
        session_id: i64,
        passwd: Vec<u8>,
        read_only: bool,
    },
    /// A liveness probe.
    Ping,
    /// Asks whether a node exists, optionally leaving a watch on its path.
    Exists { path: String, watch: bool },
}

/// What a `Request` holds.
pub enum RequestView {
    Connect {
        protocol_version: i32,
        last_zxid_seen: i64,
        timeout: i32,
        session_id: i64,
        passwd: Seq<u8>,
        read_only: bool,
    },
    Ping,
    Exists { path: Seq<char>, watch: bool },
}

impl View for Request {
    type V = RequestView;

    open spec fn view(&self) -> RequestView {
        match *self {
            Request::Connect {
                protocol_version,
                last_zxid_seen,
                timeout,
                session_id,
                passwd,
                read_only,
            } => RequestView::Connect {
                protocol_version,
                last_zxid_seen,
                timeout,
                session_id,
                passwd: passwd@,
                read_only,
            },
            Request::Ping => RequestView::Ping,
            Request::Exists { path, watch } => RequestView::Exists { path: path@, watch },
        }
    }
}

impl RequestView {
    /// The operation of a request that carries an opcode; the handshake
    /// carries none.
    pub open spec fn op(self) -> Option<OpCode> {
        match self {
            RequestView::Connect { .. } => None,
            RequestView::Ping => Some(OpCode::Ping),
            RequestView::Exists { .. } => Some(OpCode::Exists),
        }
    }
}

/// A successful answer of the server.
#[derive(Clone, Debug, PartialEq, Eq)]
pub enum Response {
    /// The answer to a handshake.
    Connect { protocol_version: i32, timeout: i32, session_id: i64, passwd: Vec<u8>, read_only: bool },
    /// The answer to a ping.
    Ping,
    /// The answer to an existence check of a node that exists.
    Exists { stat: Stat },
}

/// What a `Response` holds.
pub enum ResponseView {
    Connect { protocol_version: i32, timeout: i32, session_id: i64, passwd: Seq<u8>, read_only: bool },
    Ping,
    Exists { stat: Stat },
}

impl View for Response {
    type V = ResponseView;

    open spec fn view(&self) -> ResponseView {
        match *self {
            Response::Connect { protocol_version, timeout, session_id, passwd, read_only } => {
                ResponseView::Connect {
                    protocol_version,
                    timeout,
                    session_id,
                    passwd: passwd@,
                    read_only,
                }
            },
            Response::Ping => ResponseView::Ping,
            Response::Exists { stat } => ResponseView::Exists { stat },
        }
    }
}

/// An error that the server reports in a well-formed reply.
#[derive(Clone, Copy, Debug, PartialEq, Eq, Structural)]
pub enum ZkError {
    SystemError,
    RuntimeInconsistency,
    DataInconsistency,
    ConnectionLoss,
    MarshallingError,
    Unimplemented,
    OperationTimeout,
    BadArguments,
    ApiError,
    NoNode,
    NoAuth,
    BadVersion,
    NoChildrenForEphemerals,
    NodeExists,
    NotEmpty,
    SessionExpired,
    InvalidCallback,
    InvalidAcl,
    AuthFailed,
    /// A code this engine has no name for.
    Other(i32),
}

impl ZkError {
    /// The error code that stands for the error on the wire.
    pub open spec fn spec_code(self) -> int {
        match self {
            ZkError::SystemError => -1,
            ZkError::RuntimeInconsistency => -2,
            ZkError::DataInconsistency => -3,
            ZkError::ConnectionLoss => -4,
            ZkError::MarshallingError => -5,
            ZkError::Unimplemented => -6,
            ZkError::OperationTimeout => -7,
            ZkError::BadArguments => -8,
            ZkError::ApiError => -100,
            ZkError::NoNode => -101,
            ZkError::NoAuth => -102,
            ZkError::BadVersion => -103,
            ZkError::NoChildrenForEphemerals => -108,
            ZkError::NodeExists => -110,
            ZkError::NotEmpty => -111,
            ZkError::SessionExpired => -112,
            ZkError::InvalidCallback => -113,
            ZkError::InvalidAcl => -114,
            ZkError::AuthFailed => -115,
            ZkError::Other(code) => code as int,
        }
    }

    /// The error that a non-zero error code stands for.
    pub open spec fn spec_from_code(code: int) -> ZkError {
        if code == -1 {
            ZkError::SystemError
        } else if code == -2 {
            ZkError::RuntimeInconsistency
        } else if code == -3 {
            ZkError::DataInconsistency
        } else if code == -4 {
            ZkError::ConnectionLoss
        } else if code == -5 {
            ZkError::MarshallingError
        } else if code == -6 {
            ZkError::Unimplemented
        } else if code == -7 {
            ZkError::OperationTimeout
        } else if code == -8 {
            ZkError::BadArguments
        } else if code == -100 {
            ZkError::ApiError
        } else if code == -101 {
            ZkError::NoNode
        } else if code == -102 {
            ZkError::NoAuth
        } else if code == -103 {
            ZkError::BadVersion
        } else if code == -108 {
            ZkError::NoChildrenForEphemerals
        } else if code == -110 {
            ZkError::NodeExists
        } else if code == -111 {
            ZkError::NotEmpty
        } else if code == -112 {
            ZkError::SessionExpired
        } else if code == -113 {
            ZkError::InvalidCallback
        } else if code == -114 {
            ZkError::InvalidAcl
        } else if code == -115 {
            ZkError::AuthFailed
        } else {
            ZkError::Other(code as i32)
        }
    }

    /// Whether the error is in the form in which a code decodes: a named
    /// variant, or `Other` with a code that has no name.
    pub open spec fn canonical(self) -> bool {
        match self {
            ZkError::Other(code) => ZkError::spec_from_code(code as int) is Other,
            _ => true,
        }
    }

    /// The error code that stands for the error on the wire.
    pub fn code(self) -> (r: i32)
        ensures
            r == self.spec_code(),
    {
        match self {
            ZkError::SystemError => -1,
            ZkError::RuntimeInconsistency => -2,
            ZkError::DataInconsistency => -3,
            ZkError::ConnectionLoss => -4,
            ZkError::MarshallingError => -5,
            ZkError::Unimplemented => -6,
            ZkError::OperationTimeout => -7,
            ZkError::BadArguments => -8,
            ZkError::ApiError => -100,
            ZkError::NoNode => -101,
            ZkError::NoAuth => -102,
            ZkError::BadVersion => -103,
            ZkError::NoChildrenForEphemerals => -108,
            ZkError::NodeExists => -110,
            ZkError::NotEmpty => -111,
            ZkError::SessionExpired => -112,
            ZkError::InvalidCallback => -113,
            ZkError::InvalidAcl => -114,
            ZkError::AuthFailed => -115,
            ZkError::Other(code) => code,
        }
    }

    /// The error that an error code stands for. Every code maps back to
    /// itself, so nothing the server said is lost.
    pub fn from_code(code: i32) -> (r: ZkError)
        ensures
            r == ZkError::spec_from_code(code as int),
            r.spec_code() == code,
    {
        match code {
            -1 => ZkError::SystemError,
            -2 => ZkError::RuntimeInconsistency,
            -3 => ZkError::DataInconsistency,
            -4 => ZkError::ConnectionLoss,
            -5 => ZkError::MarshallingError,
            -6 => ZkError::Unimplemented,
            -7 => ZkError::OperationTimeout,
            -8 => ZkError::BadArguments,
            -100 => ZkError::ApiError,
            -101 => ZkError::NoNode,
            -102 => ZkError::NoAuth,
            -103 => ZkError::BadVersion,
            -108 => ZkError::NoChildrenForEphemerals,
            -110 => ZkError::NodeExists,
            -111 => ZkError::NotEmpty,
            -112 => ZkError::SessionExpired,
            -113 => ZkError::InvalidCallback,
            -114 => ZkError::InvalidAcl,
            -115 => ZkError::AuthFailed,
            _ => ZkError::Other(code),
        }
    }
}

/// An error code decodes to the error that encodes to it, and an error in
/// canonical form encodes to the code that decodes to it.
pub proof fn lemma_error_code_round_trip(code: i32, e: ZkError)
    ensures
        ZkError::spec_from_code(code as int).spec_code() == code,
        ZkError::spec_from_code(code as int).canonical(),
        e.canonical() ==> ZkError::spec_from_code(e.spec_code()) == e,
{
}

/// What happened to a watched node.
#[derive(Clone, Copy, Debug, PartialEq, Eq, Structural)]
pub enum EventKind {
    /// A change of the session's state, not of a node.
    Session,
    NodeCreated,
    NodeDeleted,
    NodeDataChanged,
    NodeChildrenChanged,
}

impl EventKind {
    /// The number that stands for the kind on the wire.
    pub open spec fn spec_code(self) -> int {
        match self {
            EventKind::Session => -1,
            EventKind::NodeCreated => 1,
            EventKind::NodeDeleted => 2,
            EventKind::NodeDataChanged => 3,
            EventKind::NodeChildrenChanged => 4,
        }
    }

    /// The kind that `code` stands for, if any.
    pub open spec fn spec_from_code(code: int) -> Option<EventKind> {
        if code == -1 {
            Some(EventKind::Session)
        } else if code == 1 {
            Some(EventKind::NodeCreated)
        } else if code == 2 {
            Some(EventKind::NodeDeleted)
        } else if code == 3 {
            Some(EventKind::NodeDataChanged)
        } else if code == 4 {
            Some(EventKind::NodeChildrenChanged)
        } else {
            None
        }
    }

    /// The number that stands for the kind on the wire.
    pub fn code(self) -> (r: i32)
        ensures
            r == self.spec_code(),
            EventKind::spec_from_code(r as int) == Some(self),
    {
        match self {
            EventKind::Session => -1,
            EventKind::NodeCreated => 1,
            EventKind::NodeDeleted => 2,
            EventKind::NodeDataChanged => 3,
            EventKind::NodeChildrenChanged => 4,
        }
    }

    /// The kind that `code` stands for, if any.
    pub fn from_code(code: i32) -> (r: Option<EventKind>)
        ensures
            r == EventKind::spec_from_code(code as int),
            r matches Some(k) ==> k.spec_code() == code,
    {
        match code {
            -1 => Some(EventKind::Session),
            1 => Some(EventKind::NodeCreated),
            2 => Some(EventKind::NodeDeleted),
            3 => Some(EventKind::NodeDataChanged),
            4 => Some(EventKind::NodeChildrenChanged),
            _ => None,
        }
    }
}

/// An unsolicited notification that a watch has triggered.
#[derive(Clone, Debug, PartialEq, Eq)]
pub struct WatchedEvent {
    /// What happened.
    pub kind: EventKind,
    /// The state of the session when it happened, as the server numbers it.
    pub state: i32,
    /// The node it happened to.
    pub path: String,
}

/// What a `WatchedEvent` holds.
pub struct WatchedEventView {
    pub kind: EventKind,
    pub state: i32,
    pub path: Seq<char>,
}

impl View for WatchedEvent {
    type V = WatchedEventView;

    open spec fn view(&self) -> WatchedEventView {
        WatchedEventView { kind: self.kind, state: self.state, path: self.path@ }
    }
}

} // verus!

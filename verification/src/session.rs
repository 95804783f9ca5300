//! The session and the states it moves through.
//!
//! ```text
//! Disconnected -> Connecting -> Handshaking -> Established
//!                                   ^               |
//!                                   |               v
//!                                   +--------- Reconnecting
//! ```
//!
//! `Expired` and `Closed` end a session for good: no event leaves them.

use crate::types::{Request, RequestView, Response, ResponseView};
use crate::wire::put_bytes;
use vstd::prelude::*;

verus! {

/// Where a session stands.
#[derive(Clone, Copy, Debug, PartialEq, Eq, Structural)]
pub enum SessionState {
    /// No connection, and none being made.
    Disconnected,
    /// The first connection attempt is under way.
    Connecting,
    /// The connection stands and the handshake has not been answered yet.
    Handshaking,
    /// The server has granted or resumed the session.
    Established,
    /// The connection was lost and a new attempt is under way.
    Reconnecting,
    /// The server has let the session go.
    Expired,
    /// The caller has closed the session.
    Closed,
}

/// What the answer to a handshake led to.
#[derive(Clone, Copy, Debug, PartialEq, Eq, Structural)]
pub enum Handshake {
    /// The session is established.
    Established,
    /// The server answered with session id 0: the session has expired.
    Expired,
    /// The answer was no usable handshake answer: the connection is given up.
    Rejected,
    /// No handshake was under way; nothing changed.
    Ignored,
}

/// The longest password that still fits a handshake record.
pub const MAX_PASSWD: usize = 0x7fff_ffff - 29;

/// What a `SessionManager` holds.
pub struct SessionView {
    pub state: SessionState,
    /// The session's id, 0 before the first handshake is answered.
    pub session_id: i64,
    /// The timeout in milliseconds: the one asked for, then the one granted.
    pub timeout: i32,
    /// The password that resumes the session.
    pub passwd: Seq<u8>,
    /// The latest server transaction seen.
    pub last_zxid: i64,
}

impl SessionView {
    /// What holds of every session: the password fits a handshake record,
    /// and an established session has an id and a timeout.
    pub open spec fn wf(self) -> bool {
        &&& self.passwd.len() <= MAX_PASSWD
        &&& self.state == SessionState::Established ==> self.session_id != 0 && self.timeout != 0
    }

    /// Whether the session has ended for good.
    pub open spec fn terminal(self) -> bool {
        self.state == SessionState::Expired || self.state == SessionState::Closed
    }

    /// The same session in another state.
    pub open spec fn in_state(self, state: SessionState) -> SessionView {
        SessionView { state, ..self }
    }

    /// After a call to connect: a disconnected session starts connecting.
    pub open spec fn after_connect(self) -> SessionView {
        if self.state == SessionState::Disconnected {
            self.in_state(SessionState::Connecting)
        } else {
            self
        }
    }

    /// Whether a connection attempt is under way.
    pub open spec fn attempting(self) -> bool {
        self.state == SessionState::Connecting || self.state == SessionState::Reconnecting
    }

    /// After the socket has connected: the handshake begins.
    pub open spec fn after_socket_connected(self) -> SessionView {
        if self.attempting() {
            self.in_state(SessionState::Handshaking)
        } else {
            self
        }
    }

    /// The handshake that asks for this session: a new one while the id is
    /// 0, else the resumption of the one last granted.
    pub open spec fn handshake_request(self) -> RequestView {
        RequestView::Connect {
            protocol_version: 0,
            last_zxid_seen: self.last_zxid,
            timeout: self.timeout,
            session_id: self.session_id,
            passwd: self.passwd,
            read_only: false,
        }
    }

    /// What the answer `resp` to a handshake leads to.
    pub open spec fn handshake_verdict(self, resp: ResponseView) -> Handshake {
        if self.state != SessionState::Handshaking {
            Handshake::Ignored
        } else {
            match resp {
                ResponseView::Connect { session_id, timeout, passwd, .. } => if session_id == 0 {
                    Handshake::Expired
                } else if timeout != 0 && passwd.len() <= MAX_PASSWD {
                    Handshake::Established
                } else {
                    Handshake::Rejected
                },
                _ => Handshake::Rejected,
            }
        }
    }

    /// After the answer `resp` to a handshake.
    pub open spec fn after_handshake(self, resp: ResponseView) -> SessionView {
        match self.handshake_verdict(resp) {
            Handshake::Ignored => self,
            Handshake::Expired => self.in_state(SessionState::Expired),
            Handshake::Rejected => self.in_state(SessionState::Reconnecting),
            Handshake::Established => SessionView {
                state: SessionState::Established,
                session_id: resp->Connect_session_id,
                timeout: resp->Connect_timeout,
                passwd: resp->Connect_passwd,
                last_zxid: self.last_zxid,
            },
        }
    }

    /// After the connection was lost or an attempt failed. A first attempt
    /// that fails leaves the session disconnected; a connection that stood
    /// is tried again.
    pub open spec fn after_connection_lost(self) -> SessionView {
        match self.state {
            SessionState::Connecting => self.in_state(SessionState::Disconnected),
            SessionState::Handshaking | SessionState::Established => self.in_state(
                SessionState::Reconnecting,
            ),
            _ => self,
        }
    }

    /// After the caller has closed the session.
    pub open spec fn after_close(self) -> SessionView {
        if self.terminal() {
            self
        } else {
            self.in_state(SessionState::Closed)
        }
    }

    /// After a reply that carries the server transaction `zxid`: the latest
    /// seen never goes back.
    pub open spec fn after_zxid(self, zxid: i64) -> SessionView {
        if zxid > self.last_zxid {
            SessionView { last_zxid: zxid, ..self }
        } else {
            self
        }
    }

    /// The time between two pings, in milliseconds: a third of the timeout.
    pub open spec fn ping_interval(self) -> int {
        if self.timeout > 0 {
            self.timeout / 3
        } else {
            0
        }
    }
}

/// The session of one client and its state.
pub struct SessionManager {
    state: SessionState,
    session_id: i64,
    timeout: i32,
    passwd: Vec<u8>,
    last_zxid: i64,
}

impl View for SessionManager {
    type V = SessionView;

    closed spec fn view(&self) -> SessionView {
        SessionView {
            state: self.state,
            session_id: self.session_id,
            timeout: self.timeout,
            passwd: self.passwd@,
            last_zxid: self.last_zxid,
        }
    }
}

impl SessionManager {
    /// The manager's invariant.
    pub open spec fn wf(&self) -> bool {
        self@.wf()
    }

    /// A session that was never connected. `timeout` is the timeout to ask
    /// the server for, in milliseconds.
    pub fn new(timeout: i32) -> (r: SessionManager)
        ensures
            r.wf(),
            r@.state == SessionState::Disconnected,
            r@.session_id == 0,
            r@.timeout == timeout,
            r@.passwd == Seq::<u8>::empty(),
            r@.last_zxid == 0,
    {
        SessionManager {
            state: SessionState::Disconnected,
            session_id: 0,
            timeout,
            passwd: Vec::new(),
            last_zxid: 0,
        }
    }

    /// The state the session is in.
    pub fn state(&self) -> (r: SessionState)
        ensures
            r == self@.state,
    {
        self.state
    }

    /// The session's id, 0 while the server has granted none.
    pub fn session_id(&self) -> (r: i64)
        ensures
            r == self@.session_id,
    {
        self.session_id
    }

    /// The timeout in milliseconds: the one asked for, then the one granted.
    pub fn timeout(&self) -> (r: i32)
        ensures
            r == self@.timeout,
    {
        self.timeout
    }

    /// The password that resumes the session.
    pub fn passwd(&self) -> (r: &Vec<u8>)
        ensures
            r@ == self@.passwd,
    {
        &self.passwd
    }

    /// The latest server transaction seen.
    pub fn last_zxid(&self) -> (r: i64)
        ensures
            r == self@.last_zxid,
    {
        self.last_zxid
    }

    /// Whether the session has ended for good.
    pub fn is_terminal(&self) -> (r: bool)
        ensures
            r == self@.terminal(),
    {
        match self.state {
            SessionState::Expired | SessionState::Closed => true,
            _ => false,
        }
    }

    /// The time between two pings, in milliseconds: a third of the timeout,
    /// and 0 while there is no timeout.
    pub fn ping_interval(&self) -> (r: i32)
        ensures
            r == self@.ping_interval(),
    {
        if self.timeout > 0 {
            self.timeout / 3
        } else {
            0
        }
    }

    /// Starts the first connection attempt. It says whether one was started:
    /// only a disconnected session starts one.
    pub fn connect(&mut self) -> (r: bool)
        requires
            old(self).wf(),
        ensures
            final(self).wf(),
            final(self)@ == old(self)@.after_connect(),
            r == (old(self)@.state == SessionState::Disconnected),
    {
        match self.state {
            SessionState::Disconnected => {
                self.state = SessionState::Connecting;
                true
            },
            _ => false,
        }
    }

    /// Notes that the socket has connected. While an attempt was under way
    /// the handshake begins, and its request is handed back: it asks for a
    /// new session while there is none, and else for the one last granted,
    /// by its id, its password and the latest server transaction seen.
    pub fn socket_connected(&mut self) -> (r: Option<Request>)
        requires
            old(self).wf(),
        ensures
            final(self).wf(),
            final(self)@ == old(self)@.after_socket_connected(),
            r is Some <==> old(self)@.attempting(),
            r matches Some(req) ==> req@ == old(self)@.handshake_request(),
    {
        match self.state {
            SessionState::Connecting | SessionState::Reconnecting => {
                self.state = SessionState::Handshaking;
                let mut passwd: Vec<u8> = Vec::new();
                put_bytes(&mut passwd, self.passwd.as_slice());
                assert(passwd@ =~= self.passwd@);
                Some(
                    Request::Connect {
                        protocol_version: 0,
                        last_zxid_seen: self.last_zxid,
                        timeout: self.timeout,
                        session_id: self.session_id,
                        passwd,
                        read_only: false,
                    },
                )
            },
            _ => None,
        }
    }

    /// Takes the answer to the handshake. A session id of 0 means that the
    /// server has let the session go; an answer with an id and a timeout
    /// establishes the session under both; anything else is a broken
    /// connection, to be tried again. Outside a handshake nothing changes.
    pub fn handshake_reply(&mut self, resp: Response) -> (r: Handshake)
        requires
            old(self).wf(),
        ensures
            final(self).wf(),
            r == old(self)@.handshake_verdict(resp@),
            final(self)@ == old(self)@.after_handshake(resp@),
    {
        match self.state {
            SessionState::Handshaking => {},
            _ => {
                return Handshake::Ignored;
            },
        }
        match resp {
            Response::Connect { session_id, timeout, passwd, .. } => {
                if session_id == 0 {
                    self.state = SessionState::Expired;
                    Handshake::Expired
                } else if timeout != 0 && passwd.len() <= MAX_PASSWD {
                    self.state = SessionState::Established;
                    self.session_id = session_id;
                    self.timeout = timeout;
                    self.passwd = passwd;
                    Handshake::Established
                } else {
                    self.state = SessionState::Reconnecting;
                    Handshake::Rejected
                }
            },
            _ => {
                self.state = SessionState::Reconnecting;
                Handshake::Rejected
            },
        }
    }

    /// Notes that the connection was lost, or that an attempt failed. It
    /// says whether a connection or a handshake was given up.
    pub fn connection_lost(&mut self) -> (r: bool)
        requires
            old(self).wf(),
        ensures
            final(self).wf(),
            final(self)@ == old(self)@.after_connection_lost(),
            r == (old(self)@.state == SessionState::Handshaking || old(self)@.state
                == SessionState::Established),
    {
        match self.state {
            SessionState::Connecting => {
                self.state = SessionState::Disconnected;
                false
            },
            SessionState::Handshaking | SessionState::Established => {
                self.state = SessionState::Reconnecting;
                true
            },
            _ => false,
        }
    }

    /// Closes the session.
    pub fn close(&mut self)
        requires
            old(self).wf(),
        ensures
            final(self).wf(),
            final(self)@ == old(self)@.after_close(),
    {
        if !self.is_terminal() {
            self.state = SessionState::Closed;
        }
    }

    /// Notes the server transaction that a reply carried.
    pub fn observe_zxid(&mut self, zxid: i64)
        requires
            old(self).wf(),
        ensures
            final(self).wf(),
            final(self)@ == old(self)@.after_zxid(zxid),
            final(self)@.last_zxid >= old(self)@.last_zxid,
    {
        if zxid > self.last_zxid {
            self.last_zxid = zxid;
        }
    }
}

/// No event leaves a session that has ended: from `Expired` and `Closed`
/// every transition gives the session back unchanged.
pub proof fn lemma_terminal_is_final(s: SessionView, resp: ResponseView, zxid: i64)
    requires
        s.terminal(),
    ensures
        s.after_connect() == s,
        s.after_socket_connected() == s,
        s.after_handshake(resp) == s,
        s.after_connection_lost() == s,
        s.after_close() == s,
        s.after_zxid(zxid).state == s.state,
{
}

/// After the loss of an established connection the session reconnects, and
/// once the socket stands again, the handshake asks for the session that
/// was held before the loss.
pub proof fn lemma_loss_resumes_session(s: SessionView)
    requires
        s.state == SessionState::Established,
    ensures
        s.after_connection_lost().state == SessionState::Reconnecting,
        s.after_connection_lost().after_socket_connected().state == SessionState::Handshaking,
        s.after_connection_lost().handshake_request() == s.handshake_request(),
        s.handshake_request()->Connect_session_id == s.session_id,
{
}

} // verus!

//! The packetizer: one session's requests and replies over one connection.
//!
//! It owns the session, the table of outstanding requests, the registry of
//! watches and the queue of frames that wait to be written. A driver owns the
//! socket and the clock. It tells the packetizer what happened (the socket
//! connected, a record arrived, the connection broke, time passed) and is
//! told what follows: the next frame to write, the requests that are now
//! resolved, the sinks that are to hear of an event.

use crate::codec::{
    decode_body, decode_connect_response, decode_event, decode_header, encode, event_body, frame,
    header_bytes, lemma_event_round_trip, lemma_header_round_trip, lemma_response_round_trip,
    parse_body, parse_connect_response, parse_event, parse_header, request_payload,
    request_payload_len, response_body, response_body_len, response_op, HEADER_LEN,
};
use crate::pending::{
    distinct_xids, failed, has_xid, lemma_remove_keeps_others, position_of, Completion, CompletionView, Failure, Pending,
    PendingTable,
};
use crate::session::{Handshake, SessionManager, SessionState, SessionView, MAX_PASSWD};
use crate::types::{
    OpCode, Request, RequestView, ResponseView, WatchedEvent, WatchedEventView, ZkError, EVENT_XID,
    PING_XID,
};
use crate::watch::{
    fires, kept, lemma_fired_path_is_clear, lemma_kept_are_armed,
    lemma_same_event_fires_nothing, lemma_unfired_stays, notified, one_shot_exists, triggers,
    WatchKind, WatchRegistry, WatchView,
};
use crate::wire::{lemma_i32_round_trip, lemma_take_string, DecodeError};
use crate::xid::{
    first_free, lemma_first_free_is_free, lemma_first_free_order, next_xid, positive_xids,
    xid_succ,
};
use vstd::prelude::*;
use vstd::slice::slice_subrange;
use vstd::utf8::encode_utf8;

verus! {

/// The most requests that may be outstanding at once. It is one less than the
/// number of transaction ids, so that a free id always exists.
pub const MAX_OUTSTANDING: usize = 0x7fff_fffe;

/// Why a request was not accepted.
#[derive(Clone, Copy, Debug, PartialEq, Eq, Structural)]
pub enum EnqueueError {
    /// The session has expired or was closed.
    SessionOver,
    /// The request is one that the packetizer sends itself: a handshake or a
    /// ping.
    Reserved,
    /// As many requests are outstanding as the packetizer allows.
    TooManyOutstanding,
    /// The request does not fit a record.
    TooLarge,
}

/// What a record led to.
#[derive(Debug, PartialEq, Eq)]
pub enum Routed {
    /// The handshake was answered and the session is established.
    Established,
    /// The server has let the session go; these requests failed with it.
    Expired(Vec<Completion>),
    /// A reply resolved one request.
    Completed(Completion),
    /// A ping was answered.
    Pong,
    /// A watch event, and the sinks that are to hear of it. Where no watch
    /// was armed for it there are none, and the event is to be dropped.
    Event { event: WatchedEvent, sinks: Vec<u64> },
    /// A reply to a request that is not outstanding; it was dropped.
    Unmatched(i32),
    /// The record could not be decoded. The connection is given up and
    /// these requests failed with it.
    Lost { error: DecodeError, completions: Vec<Completion> },
    /// No record is expected in the session's state; it was dropped.
    Ignored,
}

/// What a `Routed` holds.
pub enum RoutedView {
    Established,
    Expired(Seq<CompletionView>),
    Completed(CompletionView),
    Pong,
    Event { event: WatchedEventView, sinks: Seq<u64> },
    Unmatched(i32),
    Lost { error: DecodeError, completions: Seq<CompletionView> },
    Ignored,
}

/// The views of a sequence of completions.
pub open spec fn completion_views(s: Seq<Completion>) -> Seq<CompletionView> {
    Seq::new(s.len(), |i: int| s[i]@)
}

impl View for Routed {
    type V = RoutedView;

    open spec fn view(&self) -> RoutedView {
        match *self {
            Routed::Established => RoutedView::Established,
            Routed::Expired(completions) => RoutedView::Expired(completion_views(completions@)),
            Routed::Completed(c) => RoutedView::Completed(c@),
            Routed::Pong => RoutedView::Pong,
            Routed::Event { event, sinks } => RoutedView::Event { event: event@, sinks: sinks@ },
            Routed::Unmatched(xid) => RoutedView::Unmatched(xid),
            Routed::Lost { error, completions } => RoutedView::Lost {
                error,
                completions: completion_views(completions@),
            },
            Routed::Ignored => RoutedView::Ignored,
        }
    }
}

/// What the passing of time led to.
#[derive(Debug, PartialEq, Eq)]
pub enum Tick {
    /// Nothing is due.
    Idle,
    /// A ping is due and was queued.
    Ping,
    /// The server was not heard from within the timeout. The connection is
    /// given up and these requests failed with it.
    Lost(Vec<Completion>),
}

/// What a `Tick` holds.
pub enum TickView {
    Idle,
    Ping,
    Lost(Seq<CompletionView>),
}

impl View for Tick {
    type V = TickView;

    open spec fn view(&self) -> TickView {
        match *self {
            Tick::Idle => TickView::Idle,
            Tick::Ping => TickView::Ping,
            Tick::Lost(completions) => TickView::Lost(completion_views(completions@)),
        }
    }
}

/// Every request of `s`, failed for `reason`, oldest first.
pub open spec fn all_failed(s: Seq<Pending>, reason: Failure) -> Seq<CompletionView> {
    Seq::new(s.len(), |i: int| failed(s[i], reason))
}

/// The bytes of each frame of a queue.
pub open spec fn frames(q: Seq<Vec<u8>>) -> Seq<Seq<u8>> {
    Seq::new(q.len(), |i: int| q[i]@)
}

/// The milliseconds from `since` to `now`, and none where the clock has gone
/// back.
pub open spec fn elapsed(now: u64, since: u64) -> int {
    if now > since {
        now - since
    } else {
        0
    }
}

/// The record that carries a ping.
pub open spec fn ping_frame() -> Seq<u8> {
    frame(request_payload(RequestView::Ping, PING_XID))
}

/// What a `Packetizer` holds.
pub struct PacketizerView {
    /// The session and its state.
    pub session: SessionView,
    /// The outstanding requests, oldest first.
    pub pending: Seq<Pending>,
    /// The armed watches, in the order of their registration.
    pub watches: Seq<WatchView>,
    /// Where the search for the next transaction id starts.
    pub next_xid: i32,
    /// The most requests that may be outstanding at once.
    pub limit: nat,
    /// The handshake record, while it waits to be written.
    pub handshake: Option<Seq<u8>>,
    /// The request records that wait to be written, oldest first.
    pub outbound: Seq<Seq<u8>>,
    /// When the server was last heard from, in milliseconds.
    pub last_heard: u64,
    /// When the last ping was queued, in milliseconds.
    pub last_ping: u64,
}

impl PacketizerView {
    /// What holds of every packetizer.
    pub open spec fn wf(self) -> bool {
        &&& self.session.wf()
        &&& distinct_xids(self.pending)
        &&& positive_xids(self.pending)
        &&& self.pending.len() <= self.limit <= MAX_OUTSTANDING
        &&& 1 <= self.next_xid
        &&& self.handshake is Some ==> self.session.state == SessionState::Handshaking
        &&& self.session.terminal() ==> self.pending.len() == 0 && self.outbound.len() == 0
        &&& one_shot_exists(self.watches)
    }

    /// The packetizer with nothing outstanding, queued or armed.
    pub open spec fn emptied(self) -> PacketizerView {
        PacketizerView {
            pending: Seq::empty(),
            watches: Seq::empty(),
            handshake: None,
            outbound: Seq::empty(),
            ..self
        }
    }

    /// After the connection was lost: the session reconnects, every
    /// outstanding request has failed, nothing waits to be written and every
    /// watch is disarmed.
    pub open spec fn lost(self) -> PacketizerView {
        PacketizerView { session: self.session.after_connection_lost(), ..self.emptied() }
    }

    /// After the session was closed.
    pub open spec fn closed(self) -> PacketizerView {
        PacketizerView { session: self.session.after_close(), ..self.emptied() }
    }

    /// After the socket has connected at the time `now`: the handshake is
    /// the next record to write.
    pub open spec fn after_socket_connected(self, now: u64) -> PacketizerView {
        if self.session.attempting() {
            PacketizerView {
                session: self.session.after_socket_connected(),
                handshake: Some(frame(request_payload(self.session.handshake_request(), 0))),
                last_heard: now,
                last_ping: now,
                ..self
            }
        } else {
            self
        }
    }

    /// The transaction id that the next request gets: the first at or after
    /// `next_xid` that no outstanding request holds.
    pub open spec fn fresh_xid(self) -> i32 {
        first_free(self.pending, self.next_xid, self.pending.len())
    }

    /// Whether a request is accepted, and under which transaction id.
    pub open spec fn enqueue_verdict(self, req: RequestView) -> Result<i32, EnqueueError> {
        if self.session.terminal() {
            Err(EnqueueError::SessionOver)
        } else if !(req is Exists) {
            Err(EnqueueError::Reserved)
        } else if self.pending.len() >= self.limit {
            Err(EnqueueError::TooManyOutstanding)
        } else if request_payload_len(req) > i32::MAX {
            Err(EnqueueError::TooLarge)
        } else {
            Ok(self.fresh_xid())
        }
    }

    /// After a request was handed in. An accepted request is outstanding
    /// under its transaction id, its record is the last in the queue, and
    /// where it asks for a watch, a one-shot watch on its path is armed
    /// under the same id. A refused request changes nothing.
    pub open spec fn after_enqueue(self, req: RequestView) -> PacketizerView {
        match self.enqueue_verdict(req) {
            Err(_) => self,
            Ok(xid) => PacketizerView {
                pending: self.pending.push(Pending { xid, op: OpCode::Exists }),
                outbound: self.outbound.push(frame(request_payload(req, xid))),
                next_xid: xid_succ(xid),
                watches: if req->Exists_watch {
                    self.watches.push(
                        WatchView {
                            path: req->Exists_path,
                            kind: WatchKind::Exists,
                            persistent: false,
                            sink: xid as u64,
                        },
                    )
                } else {
                    self.watches
                },
                ..self
            },
        }
    }

    /// Whether a record waits to be written and may be: the handshake, or,
    /// once the session is established, the oldest request.
    pub open spec fn next_frame(self) -> Option<Seq<u8>> {
        if self.handshake is Some {
            self.handshake
        } else if self.session.state == SessionState::Established && self.outbound.len() > 0 {
            Some(self.outbound[0])
        } else {
            None
        }
    }

    /// After the next record was taken to be written.
    pub open spec fn after_next_frame(self) -> PacketizerView {
        if self.handshake is Some {
            PacketizerView { handshake: None, ..self }
        } else if self.session.state == SessionState::Established && self.outbound.len() > 0 {
            PacketizerView { outbound: self.outbound.remove(0), ..self }
        } else {
            self
        }
    }

    /// What the answer to a handshake leads to.
    pub open spec fn route_handshake(self, record: Seq<u8>) -> RoutedView {
        match parse_connect_response(record) {
            Err(error) => RoutedView::Lost {
                error,
                completions: all_failed(self.pending, Failure::ConnectionLost),
            },
            Ok(resp) => match self.session.handshake_verdict(resp) {
                Handshake::Established => RoutedView::Established,
                Handshake::Expired => RoutedView::Expired(
                    all_failed(self.pending, Failure::SessionOver),
                ),
                _ => RoutedView::Lost {
                    error: DecodeError::Malformed,
                    completions: all_failed(self.pending, Failure::ConnectionLost),
                },
            },
        }
    }

    /// The record could not be decoded: the connection is lost.
    pub open spec fn broken(self, error: DecodeError) -> RoutedView {
        RoutedView::Lost { error, completions: all_failed(self.pending, Failure::ConnectionLost) }
    }

    /// What a record leads to while the session is established. An event
    /// goes to the watches, the answer to a ping is noted, and a reply goes
    /// to the request that holds its transaction id: with the server's error
    /// where the header carries one, else with the decoded body.
    pub open spec fn route_reply(self, record: Seq<u8>) -> RoutedView {
        match parse_header(record) {
            Err(error) => self.broken(error),
            Ok(h) => {
                let body = record.skip(HEADER_LEN as int);
                if h.xid == EVENT_XID {
                    match parse_event(body) {
                        Err(error) => self.broken(error),
                        Ok(event) => RoutedView::Event {
                            event,
                            sinks: notified(self.watches, event),
                        },
                    }
                } else if h.xid == PING_XID {
                    if body.len() == 0 {
                        RoutedView::Pong
                    } else {
                        self.broken(DecodeError::Malformed)
                    }
                } else if !has_xid(self.pending, h.xid) {
                    RoutedView::Unmatched(h.xid)
                } else if h.error_code != 0 {
                    if body.len() == 0 {
                        RoutedView::Completed(
                            CompletionView {
                                xid: h.xid,
                                outcome: Err(
                                    Failure::Server(ZkError::spec_from_code(h.error_code as int)),
                                ),
                            },
                        )
                    } else {
                        self.broken(DecodeError::Malformed)
                    }
                } else {
                    let op = self.pending[position_of(self.pending, h.xid)].op;
                    match parse_body(op.spec_code(), body) {
                        Err(error) => self.broken(error),
                        Ok(resp) => RoutedView::Completed(
                            CompletionView { xid: h.xid, outcome: Ok(resp) },
                        ),
                    }
                }
            },
        }
    }

    /// What a record leads to. Records are read only during the handshake
    /// and while the session is established.
    pub open spec fn route(self, record: Seq<u8>) -> RoutedView {
        match self.session.state {
            SessionState::Handshaking => self.route_handshake(record),
            SessionState::Established => self.route_reply(record),
            _ => RoutedView::Ignored,
        }
    }

    /// After a record that arrived at the time `now`.
    pub open spec fn after_record(self, record: Seq<u8>, now: u64) -> PacketizerView {
        match self.route(record) {
            RoutedView::Ignored => self,
            RoutedView::Lost { .. } => self.lost(),
            RoutedView::Established => PacketizerView {
                session: self.session.after_handshake(parse_connect_response(record)->Ok_0),
                handshake: None,
                last_heard: now,
                last_ping: now,
                ..self
            },
            RoutedView::Expired(_) => PacketizerView {
                session: self.session.after_handshake(parse_connect_response(record)->Ok_0),
                ..self.emptied()
            },
            RoutedView::Completed(c) => PacketizerView {
                session: self.session.after_zxid(parse_header(record)->Ok_0.zxid),
                pending: self.pending.remove(position_of(self.pending, c.xid)),
                last_heard: now,
                ..self
            },
            RoutedView::Event { event, .. } => PacketizerView {
                session: self.session.after_zxid(parse_header(record)->Ok_0.zxid),
                watches: kept(self.watches, event),
                last_heard: now,
                ..self
            },
            _ => PacketizerView {
                session: self.session.after_zxid(parse_header(record)->Ok_0.zxid),
                last_heard: now,
                ..self
            },
        }
    }

    /// What is due at the time `now`. A connection on which the server was
    /// not heard from for a whole timeout is given up; on an established
    /// one a ping is due once a third of the timeout has passed since the
    /// last.
    pub open spec fn tick_verdict(self, now: u64) -> TickView {
        let live = self.session.state == SessionState::Handshaking || self.session.state
            == SessionState::Established;
        if live && self.session.timeout > 0 && elapsed(now, self.last_heard)
            >= self.session.timeout {
            TickView::Lost(all_failed(self.pending, Failure::ConnectionLost))
        } else if self.session.state == SessionState::Established && elapsed(now, self.last_ping)
            >= self.session.ping_interval() {
            TickView::Ping
        } else {
            TickView::Idle
        }
    }

    /// After the clock was looked at, at the time `now`.
    pub open spec fn after_tick(self, now: u64) -> PacketizerView {
        match self.tick_verdict(now) {
            TickView::Idle => self,
            TickView::Ping => PacketizerView {
                outbound: self.outbound.push(ping_frame()),
                last_ping: now,
                ..self
            },
            TickView::Lost(_) => self.lost(),
        }
    }
}

/// The engine of one session.
pub struct Packetizer {
    session: SessionManager,
    pending: PendingTable,
    watches: WatchRegistry,
    next_xid: i32,
    limit: usize,
    handshake: Option<Vec<u8>>,
    outbound: Vec<Vec<u8>>,
    last_heard: u64,
    last_ping: u64,
}

impl View for Packetizer {
    type V = PacketizerView;

    closed spec fn view(&self) -> PacketizerView {
        PacketizerView {
            session: self.session@,
            pending: self.pending@,
            watches: self.watches@,
            next_xid: self.next_xid,
            limit: self.limit as nat,
            handshake: match self.handshake {
                Some(f) => Some(f@),
                None => None,
            },
            outbound: frames(self.outbound@),
            last_heard: self.last_heard,
            last_ping: self.last_ping,
        }
    }
}

impl Packetizer {
    /// The packetizer's invariant.
    pub open spec fn wf(&self) -> bool {
        self@.wf()
    }

    /// A packetizer for a session that was never connected. It will ask the
    /// server for `timeout` milliseconds, and allows `max_outstanding`
    /// requests at once, though never more than `MAX_OUTSTANDING`.
    pub fn new(timeout: i32, max_outstanding: usize) -> (r: Packetizer)
        ensures
            r.wf(),
            r@.session.state == SessionState::Disconnected,
            r@.session.session_id == 0,
            r@.session.timeout == timeout,
            r@.session.passwd == Seq::<u8>::empty(),
            r@.session.last_zxid == 0,
            r@.pending == Seq::<Pending>::empty(),
            r@.watches == Seq::<WatchView>::empty(),
            r@.next_xid == 1,
            r@.limit == if max_outstanding <= MAX_OUTSTANDING {
                max_outstanding
            } else {
                MAX_OUTSTANDING
            },
            r@.handshake == None::<Seq<u8>>,
            r@.outbound == Seq::<Seq<u8>>::empty(),
            r@.last_heard == 0,
            r@.last_ping == 0,
    {
        let limit: usize = if max_outstanding <= MAX_OUTSTANDING {
            max_outstanding
        } else {
            MAX_OUTSTANDING
        };
        let r = Packetizer {
            session: SessionManager::new(timeout),
            pending: PendingTable::new(),
            watches: WatchRegistry::new(),
            next_xid: 1,
            limit,
            handshake: None,
            outbound: Vec::new(),
            last_heard: 0,
            last_ping: 0,
        };
        assert(frames(r.outbound@) =~= Seq::<Seq<u8>>::empty());
        r
    }

    /// The session and its state.
    pub fn session(&self) -> (r: &SessionManager)
        ensures
            r@ == self@.session,
    {
        &self.session
    }

    /// The state the session is in.
    pub fn state(&self) -> (r: SessionState)
        ensures
            r == self@.session.state,
    {
        self.session.state()
    }

    /// The number of outstanding requests.
    pub fn outstanding(&self) -> (r: usize)
        ensures
            r == self@.pending.len(),
    {
        self.pending.len()
    }

    /// The number of request records that wait to be written.
    pub fn queued(&self) -> (r: usize)
        ensures
            r == self@.outbound.len(),
    {
        self.outbound.len()
    }

    /// The number of armed watches.
    pub fn armed(&self) -> (r: usize)
        ensures
            r == self@.watches.len(),
    {
        self.watches.len()
    }

    /// Starts the first connection attempt, and says whether one was
    /// started: only a disconnected session starts one.
    pub fn connect(&mut self) -> (r: bool)
        requires
            old(self).wf(),
        ensures
            final(self).wf(),
            r == (old(self)@.session.state == SessionState::Disconnected),
            final(self)@ == (PacketizerView {
                session: old(self)@.session.after_connect(),
                ..old(self)@
            }),
    {
        self.session.connect()
    }

    /// Notes, at the time `now`, that the socket has connected. While an
    /// attempt was under way the handshake begins: its record goes before
    /// every queued request and asks for the session held so far. Otherwise
    /// nothing changes.
    pub fn socket_connected(&mut self, now: u64)
        requires
            old(self).wf(),
        ensures
            final(self).wf(),
            final(self)@ == old(self)@.after_socket_connected(now),
    {
        match self.session.socket_connected() {
            Some(request) => {
                self.handshake = Some(encode(&request, 0).unwrap());
                self.last_heard = now;
                self.last_ping = now;
            },
            None => {},
        }
    }

    /// Gives up everything that hangs on the connection.
    fn empty(&mut self, reason: Failure) -> (r: Vec<Completion>)
        ensures
            final(self)@ == old(self)@.emptied(),
            r@.len() == old(self)@.pending.len(),
            completion_views(r@) == all_failed(old(self)@.pending, reason),
    {
        let out = self.pending.fail_all(reason);
        self.watches.clear();
        self.handshake = None;
        self.outbound.clear();
        proof {
            assert(frames(self.outbound@) =~= Seq::<Seq<u8>>::empty());
            assert(completion_views(out@) =~= all_failed(old(self)@.pending, reason));
        }
        out
    }

    /// Notes that the connection was lost, or that an attempt failed. Every
    /// outstanding request fails with a connection-lost error and is handed
    /// back, oldest first; nothing is left to write, and every watch is
    /// disarmed. A session that was connected goes on to reconnect.
    pub fn connection_lost(&mut self) -> (r: Vec<Completion>)
        requires
            old(self).wf(),
        ensures
            final(self).wf(),
            final(self)@ == old(self)@.lost(),
            r@.len() == old(self)@.pending.len(),
            completion_views(r@) == all_failed(old(self)@.pending, Failure::ConnectionLost),
    {
        self.session.connection_lost();
        self.empty(Failure::ConnectionLost)
    }

    /// Closes the session. Every outstanding request fails with a
    /// session-over error and is handed back, oldest first.
    pub fn close(&mut self) -> (r: Vec<Completion>)
        requires
            old(self).wf(),
        ensures
            final(self).wf(),
            final(self)@ == old(self)@.closed(),
            r@.len() == old(self)@.pending.len(),
            completion_views(r@) == all_failed(old(self)@.pending, Failure::SessionOver),
    {
        self.session.close();
        self.empty(Failure::SessionOver)
    }

    /// Finds the transaction id for the next request.
    fn free_xid(&self) -> (r: i32)
        requires
            self.wf(),
        ensures
            r == self@.fresh_xid(),
    {
        let mut candidate: i32 = self.next_xid;
        let mut tries: usize = self.pending.len();
        while tries > 0
            invariant
                self.wf(),
                first_free(self.pending@, candidate, tries as nat) == self@.fresh_xid(),
            decreases tries,
        {
            if self.pending.op_of(candidate).is_none() {
                return candidate;
            }
            candidate = next_xid(candidate);
            tries -= 1;
        }
        candidate
    }

    /// Takes a request in. It is refused where the session has ended, where
    /// it is a handshake or a ping, where as many requests are outstanding
    /// as are allowed, and where it does not fit a record, in this order.
    /// Else it gets the first transaction id at or after the last one given
    /// that no outstanding request holds; the id is handed back as the
    /// handle by which the request's completion will be known.
    pub fn enqueue(&mut self, request: Request) -> (r: Result<i32, EnqueueError>)
        requires
            old(self).wf(),
        ensures
            final(self).wf(),
            r == old(self)@.enqueue_verdict(request@),
            final(self)@ == old(self)@.after_enqueue(request@),
            r matches Ok(xid) ==> xid >= 1 && !has_xid(old(self)@.pending, xid) && has_xid(
                final(self)@.pending,
                xid,
            ),
    {
        if self.session.is_terminal() {
            return Err(EnqueueError::SessionOver);
        }
        match &request {
            Request::Exists { .. } => {},
            _ => {
                return Err(EnqueueError::Reserved);
            },
        }
        if self.pending.len() >= self.limit {
            return Err(EnqueueError::TooManyOutstanding);
        }
        let xid = self.free_xid();
        let record = match encode(&request, xid) {
            Ok(record) => record,
            Err(_) => {
                return Err(EnqueueError::TooLarge);
            },
        };
        proof {
            lemma_first_free_is_free(self.pending@, self.next_xid);
        }
        let ghost queue = self.outbound@;
        let registered = self.pending.register(xid, OpCode::Exists);
        self.outbound.push(record);
        self.next_xid = next_xid(xid);
        match request {
            Request::Exists { path, watch } => {
                if watch {
                    self.watches.register(path, WatchKind::Exists, false, xid as u64);
                }
            },
            _ => {},
        }
        proof {
            assert(frames(self.outbound@) =~= frames(queue).push(record@));
            let s = self.pending@;
            assert(s[s.len() - 1].xid == xid);
            assert(distinct_xids(s));
            assert(positive_xids(s));
        }
        Ok(xid)
    }

    /// Hands out the next record to write, if one is due: the handshake
    /// first, and once the session is established the queued requests,
    /// oldest first. While the session is in any other state the queue
    /// waits.
    pub fn next_frame(&mut self) -> (r: Option<Vec<u8>>)
        requires
            old(self).wf(),
        ensures
            final(self).wf(),
            final(self)@ == old(self)@.after_next_frame(),
            match old(self)@.next_frame() {
                Some(bytes) => r is Some && r->Some_0@ == bytes,
                None => r is None,
            },
    {
        if self.handshake.is_some() {
            return self.handshake.take();
        }
        match self.session.state() {
            SessionState::Established => {},
            _ => {
                return None;
            },
        }
        if self.outbound.len() == 0 {
            return None;
        }
        let ghost queue = self.outbound@;
        let record = self.outbound.remove(0);
        assert(frames(self.outbound@) =~= frames(queue).remove(0));
        Some(record)
    }
}

impl Packetizer {
    /// Gives the connection up over a record that could not be decoded.
    fn drop_connection(&mut self, error: DecodeError) -> (r: Routed)
        requires
            old(self).wf(),
        ensures
            final(self).wf(),
            final(self)@ == old(self)@.lost(),
            r@ == old(self)@.broken(error),
    {
        let completions = self.connection_lost();
        Routed::Lost { error, completions }
    }

    /// Takes the answer to the handshake.
    fn on_handshake_record(&mut self, record: &[u8], now: u64) -> (r: Routed)
        requires
            old(self).wf(),
            old(self)@.session.state == SessionState::Handshaking,
        ensures
            final(self).wf(),
            r@ == old(self)@.route(record@),
            final(self)@ == old(self)@.after_record(record@, now),
    {
        let resp = match decode_connect_response(record) {
            Ok(resp) => resp,
            Err(error) => {
                return self.drop_connection(error);
            },
        };
        match self.session.handshake_reply(resp) {
            Handshake::Established => {
                self.handshake = None;
                self.last_heard = now;
                self.last_ping = now;
                Routed::Established
            },
            Handshake::Expired => {
                let completions = self.empty(Failure::SessionOver);
                Routed::Expired(completions)
            },
            _ => {
                let completions = self.empty(Failure::ConnectionLost);
                Routed::Lost { error: DecodeError::Malformed, completions }
            },
        }
    }

    /// Notes that the server was heard from, and the transaction it spoke of.
    fn heard(&mut self, zxid: i64, now: u64)
        requires
            old(self).wf(),
        ensures
            final(self).wf(),
            final(self)@ == (PacketizerView {
                session: old(self)@.session.after_zxid(zxid),
                last_heard: now,
                ..old(self)@
            }),
    {
        self.session.observe_zxid(zxid);
        self.last_heard = now;
    }

    /// Takes a record of an established session: a reply, the answer to a
    /// ping, or a watch event.
    fn on_reply_record(&mut self, record: &[u8], now: u64) -> (r: Routed)
        requires
            old(self).wf(),
            old(self)@.session.state == SessionState::Established,
        ensures
            final(self).wf(),
            r@ == old(self)@.route(record@),
            final(self)@ == old(self)@.after_record(record@, now),
    {
        let h = match decode_header(record) {
            Ok(h) => h,
            Err(error) => {
                return self.drop_connection(error);
            },
        };
        let body = slice_subrange(record, HEADER_LEN, record.len());
        assert(body@ =~= record@.skip(HEADER_LEN as int));
        if h.xid == EVENT_XID {
            match decode_event(body) {
                Err(error) => self.drop_connection(error),
                Ok(event) => {
                    proof {
                        lemma_kept_are_armed(self.watches@, event@);
                    }
                    let sinks = self.watches.dispatch(&event);
                    self.heard(h.zxid, now);
                    Routed::Event { event, sinks }
                },
            }
        } else if h.xid == PING_XID {
            if body.len() == 0 {
                self.heard(h.zxid, now);
                Routed::Pong
            } else {
                self.drop_connection(DecodeError::Malformed)
            }
        } else {
            let op = match self.pending.op_of(h.xid) {
                Some(op) => op,
                None => {
                    self.heard(h.zxid, now);
                    return Routed::Unmatched(h.xid);
                },
            };
            let outcome = if h.error_code != 0 {
                if body.len() != 0 {
                    return self.drop_connection(DecodeError::Malformed);
                }
                Err(Failure::Server(ZkError::from_code(h.error_code)))
            } else {
                match decode_body(op.code(), body) {
                    Ok(resp) => Ok(resp),
                    Err(error) => {
                        return self.drop_connection(error);
                    },
                }
            };
            proof {
                let s = self.pending@;
                let at = position_of(s, h.xid);
                lemma_remove_keeps_others(s, at);
                assert forall|i: int| 0 <= i < s.remove(at).len() implies (#[trigger] s.remove(
                    at,
                )[i]).xid >= 1 by {
                    if i < at {
                        assert(s.remove(at)[i] == s[i]);
                    } else {
                        assert(s.remove(at)[i] == s[i + 1]);
                    }
                }
            }
            let completion = self.pending.complete(h.xid, outcome).unwrap();
            self.heard(h.zxid, now);
            Routed::Completed(completion)
        }
    }

    /// Takes one whole record, as it followed its length on the wire, read
    /// at the time `now`. During the handshake it is the handshake's answer;
    /// in an established session it is a reply, the answer to a ping or a
    /// watch event; in any other state it is dropped. A record that cannot
    /// be decoded costs the connection, never more.
    pub fn on_record(&mut self, record: &[u8], now: u64) -> (r: Routed)
        requires
            old(self).wf(),
        ensures
            final(self).wf(),
            r@ == old(self)@.route(record@),
            final(self)@ == old(self)@.after_record(record@, now),
    {
        match self.session.state() {
            SessionState::Handshaking => self.on_handshake_record(record, now),
            SessionState::Established => self.on_reply_record(record, now),
            _ => Routed::Ignored,
        }
    }

    /// Looks at the clock, at the time `now`. A connection that has been
    /// silent for a whole timeout is given up, as if it had been lost; on an
    /// established one a ping is queued behind the waiting requests once a
    /// third of the timeout has passed since the last.
    pub fn tick(&mut self, now: u64) -> (r: Tick)
        requires
            old(self).wf(),
        ensures
            final(self).wf(),
            r@ == old(self)@.tick_verdict(now),
            final(self)@ == old(self)@.after_tick(now),
    {
        let state = self.session.state();
        let live = match state {
            SessionState::Handshaking | SessionState::Established => true,
            _ => false,
        };
        let timeout = self.session.timeout();
        let quiet: u64 = if now > self.last_heard {
            now - self.last_heard
        } else {
            0
        };
        if live && timeout > 0 && quiet >= timeout as u64 {
            return Tick::Lost(self.connection_lost());
        }
        let established = match state {
            SessionState::Established => true,
            _ => false,
        };
        let since_ping: u64 = if now > self.last_ping {
            now - self.last_ping
        } else {
            0
        };
        if established && since_ping >= self.session.ping_interval() as u64 {
            let ghost queue = self.outbound@;
            let record = encode(&Request::Ping, PING_XID).unwrap();
            self.outbound.push(record);
            assert(frames(self.outbound@) =~= frames(queue).push(record@));
            self.last_ping = now;
            return Tick::Ping;
        }
        Tick::Idle
    }
}

/// Transaction ids go out in strictly increasing order until they wrap, and
/// no two outstanding requests share one. Of two requests accepted one after
/// the other, the second gets another id than the first, and a larger one
/// unless every id above the first's is held by an outstanding request.
pub proof fn lemma_xids_increase(v: PacketizerView, first: RequestView, second: RequestView)
    requires
        v.wf(),
        v.enqueue_verdict(first) is Ok,
        v.after_enqueue(first).enqueue_verdict(second) is Ok,
    ensures
        ({
            let x1 = v.enqueue_verdict(first)->Ok_0;
            let x2 = v.after_enqueue(first).enqueue_verdict(second)->Ok_0;
            &&& !has_xid(v.pending, x1)
            &&& !has_xid(v.after_enqueue(first).pending, x2)
            &&& x1 != x2
            &&& x2 > x1 || forall|y: i32| x1 < y ==> has_xid(v.after_enqueue(first).pending, y)
        }),
{
    let x1 = v.enqueue_verdict(first)->Ok_0;
    let v1 = v.after_enqueue(first);
    let x2 = v1.enqueue_verdict(second)->Ok_0;
    lemma_first_free_is_free(v.pending, v.next_xid);
    let s = v1.pending;
    assert(s[s.len() - 1].xid == x1);
    assert(distinct_xids(s));
    lemma_first_free_is_free(s, xid_succ(x1));
    lemma_first_free_order(s, xid_succ(x1));
}

/// Every outstanding request completes exactly once on connection loss: the
/// completions answer the outstanding requests one for one, each with a
/// connection-lost error, and afterwards the table is empty, so that no
/// record that arrives later, in whatever state, completes one of them
/// again.
pub proof fn lemma_loss_completes_each_once(v: PacketizerView, later: Seq<u8>, now: u64)
    requires
        v.wf(),
    ensures
        all_failed(v.pending, Failure::ConnectionLost).len() == v.pending.len(),
        forall|i: int|
            0 <= i < v.pending.len() ==> #[trigger] all_failed(
                v.pending,
                Failure::ConnectionLost,
            )[i] == failed(v.pending[i], Failure::ConnectionLost),
        distinct_xids(v.pending),
        v.lost().wf(),
        v.lost().pending.len() == 0,
        !(v.lost().route(later) is Completed),
        !(v.lost().after_socket_connected(now).route(later) is Completed),
{
}

/// A reply completes only a request that is outstanding, and with that the
/// request is outstanding no more: a second reply under the same
/// transaction id finds no waiter.
pub proof fn lemma_reply_completes_once(v: PacketizerView, record: Seq<u8>, now: u64)
    requires
        v.wf(),
        v.route(record) is Completed,
    ensures
        has_xid(v.pending, v.route(record)->Completed_0.xid),
        !has_xid(v.after_record(record, now).pending, v.route(record)->Completed_0.xid),
        v.after_record(record, now).pending.len() == v.pending.len() - 1,
{
    let xid = v.route(record)->Completed_0.xid;
    lemma_remove_keeps_others(v.pending, position_of(v.pending, xid));
}

/// After the loss of an established connection the session reconnects, and
/// once the socket stands again the very next record to write is the
/// handshake that asks for the session held before, whatever was enqueued
/// in between.
pub proof fn lemma_handshake_comes_first(v: PacketizerView, now: u64)
    requires
        v.wf(),
        v.session.state == SessionState::Established,
    ensures
        v.lost().session.state == SessionState::Reconnecting,
        v.lost().next_frame() == None::<Seq<u8>>,
        v.lost().after_socket_connected(now).session.state == SessionState::Handshaking,
        v.lost().after_socket_connected(now).next_frame() == Some(
            frame(request_payload(v.session.handshake_request(), 0)),
        ),
        forall|req: RequestView|
            (#[trigger] v.lost().after_enqueue(req)).after_socket_connected(now).next_frame()
                == Some(frame(request_payload(v.session.handshake_request(), 0))),
{
}

/// A session that has ended takes no request, and holds none.
pub proof fn lemma_ended_session_refuses(v: PacketizerView, req: RequestView)
    requires
        v.wf(),
        v.session.terminal(),
    ensures
        v.enqueue_verdict(req) == Err::<i32, EnqueueError>(EnqueueError::SessionOver),
        v.pending.len() == 0,
        v.next_frame() == None::<Seq<u8>>,
{
}

/// A reply reaches the request it answers: in an established session, the
/// record that a server writes for the response to an outstanding request
/// completes that request with that response.
pub proof fn lemma_reply_reaches_its_request(
    v: PacketizerView,
    xid: i32,
    zxid: i64,
    resp: ResponseView,
)
    requires
        v.wf(),
        v.session.state == SessionState::Established,
        has_xid(v.pending, xid),
        response_op(resp) == Some(v.pending[position_of(v.pending, xid)].op),
    ensures
        v.route(header_bytes(xid, zxid, 0) + response_body(resp)) == RoutedView::Completed(
            CompletionView { xid, outcome: Ok(resp) },
        ),
{
    let body = response_body(resp);
    let record = header_bytes(xid, zxid, 0) + body;
    assert(response_body_len(resp) <= i32::MAX);
    lemma_response_round_trip(resp);
    lemma_header_round_trip(xid, zxid, 0, body);
    assert(record.skip(HEADER_LEN as int) =~= body);
    let at = position_of(v.pending, xid);
    assert(0 <= at < v.pending.len() && v.pending[at].xid == xid);
}

/// A server error reaches the request it answers: the record that carries
/// only a header with a non-zero error code completes the outstanding
/// request with that error.
pub proof fn lemma_error_reaches_its_request(v: PacketizerView, xid: i32, zxid: i64, code: i32)
    requires
        v.wf(),
        v.session.state == SessionState::Established,
        has_xid(v.pending, xid),
        code != 0,
    ensures
        v.route(header_bytes(xid, zxid, code)) == RoutedView::Completed(
            CompletionView {
                xid,
                outcome: Err(Failure::Server(ZkError::spec_from_code(code as int))),
            },
        ),
{
    let record = header_bytes(xid, zxid, code);
    lemma_header_round_trip(xid, zxid, code, Seq::empty());
    assert(record + Seq::<u8>::empty() =~= record);
    assert(record.skip(HEADER_LEN as int) =~= Seq::<u8>::empty());
    let at = position_of(v.pending, xid);
    assert(0 <= at < v.pending.len() && v.pending[at].xid == xid);
}

/// A watch event reaches the watches it fires: the record that a server
/// writes for an event is handed to exactly the sinks of the armed watches
/// on its path that its kind triggers, and the one-shot ones among them are
/// disarmed.
pub proof fn lemma_event_reaches_its_watches(
    v: PacketizerView,
    zxid: i64,
    event: WatchedEventView,
    now: u64,
)
    requires
        v.session.state == SessionState::Established,
        encode_utf8(event.path).len() <= i32::MAX,
    ensures
        v.route(header_bytes(EVENT_XID, zxid, 0) + event_body(event)) == (RoutedView::Event {
            event,
            sinks: notified(v.watches, event),
        }),
        v.after_record(header_bytes(EVENT_XID, zxid, 0) + event_body(event), now).watches == kept(
            v.watches,
            event,
        ),
        v.after_record(
            header_bytes(EVENT_XID, zxid, 0) + event_body(event),
            now,
        ).session.state == SessionState::Established,
{
    let body = event_body(event);
    let record = header_bytes(EVENT_XID, zxid, 0) + body;
    lemma_event_round_trip(event);
    lemma_take_string(event.path, Seq::empty());
    lemma_i32_round_trip(event.kind.spec_code() as i32);
    lemma_i32_round_trip(event.state);
    lemma_header_round_trip(EVENT_XID, zxid, 0, body);
    assert(record.skip(HEADER_LEN as int) =~= body);
}

/// The state after a run of requests, handed in one after the other with
/// nothing else happening in between.
pub open spec fn after_enqueues(v: PacketizerView, reqs: Seq<RequestView>) -> PacketizerView
    decreases reqs.len(),
{
    if reqs.len() == 0 {
        v
    } else {
        after_enqueues(v, reqs.drop_last()).after_enqueue(reqs.last())
    }
}

/// Whether the request at place `i` of a run is accepted, and under which
/// transaction id.
pub open spec fn verdict_at(v: PacketizerView, reqs: Seq<RequestView>, i: int) -> Result<
    i32,
    EnqueueError,
> {
    after_enqueues(v, reqs.take(i)).enqueue_verdict(reqs[i])
}

/// The transaction id that the request at place `i` of a run gets.
pub open spec fn xid_at(v: PacketizerView, reqs: Seq<RequestView>, i: int) -> i32 {
    verdict_at(v, reqs, i)->Ok_0
}

/// Whether every request of a run is accepted.
pub open spec fn all_accepted(v: PacketizerView, reqs: Seq<RequestView>) -> bool {
    forall|i: int| 0 <= i < reqs.len() ==> (#[trigger] verdict_at(v, reqs, i)) is Ok
}

/// The records of a run of accepted requests, in the order of the requests.
pub open spec fn records_of(v: PacketizerView, reqs: Seq<RequestView>) -> Seq<Seq<u8>> {
    Seq::new(reqs.len(), |i: int| frame(request_payload(reqs[i], xid_at(v, reqs, i))))
}

/// Taking a request in keeps the packetizer's invariant. An accepted request
/// gets a positive transaction id that was free, and is outstanding under it
/// beside the requests that were outstanding before.
pub proof fn lemma_enqueue_keeps_wf(v: PacketizerView, req: RequestView)
    requires
        v.wf(),
    ensures
        v.after_enqueue(req).wf(),
        v.enqueue_verdict(req) matches Ok(xid) ==> {
            &&& xid >= 1
            &&& !has_xid(v.pending, xid)
            &&& v.after_enqueue(req).pending == v.pending.push(Pending { xid, op: OpCode::Exists })
            &&& v.after_enqueue(req).next_xid == xid_succ(xid)
            &&& v.after_enqueue(req).outbound == v.outbound.push(
                frame(request_payload(req, xid)),
            )
            &&& forall|y: i32|
                has_xid(v.after_enqueue(req).pending, y) <==> y == xid || has_xid(v.pending, y)
        },
{
    if v.enqueue_verdict(req) is Ok {
        let xid = v.enqueue_verdict(req)->Ok_0;
        lemma_first_free_is_free(v.pending, v.next_xid);
        let s = v.after_enqueue(req).pending;
        assert(s[s.len() - 1].xid == xid);
        assert forall|i: int| 0 <= i < s.len() - 1 implies (#[trigger] s[i]) == v.pending[i] by {}
        assert(distinct_xids(s));
        assert(positive_xids(s));
        assert forall|y: i32| has_xid(s, y) implies y == xid || has_xid(v.pending, y) by {
            let i = choose|i: int| 0 <= i < s.len() && (#[trigger] s[i]).xid == y;
            if i < s.len() - 1 {
                assert(v.pending[i].xid == y);
            }
        }
        assert forall|y: i32| has_xid(v.pending, y) implies has_xid(s, y) by {
            let i = choose|i: int| 0 <= i < v.pending.len() && (#[trigger] v.pending[i]).xid == y;
            assert(s[i].xid == y);
        }
        let w = v.after_enqueue(req).watches;
        assert forall|i: int| 0 <= i < w.len() implies !(#[trigger] w[i]).persistent && w[i].kind
            == WatchKind::Exists by {
            if i < v.watches.len() {
                assert(w[i] == v.watches[i]);
            }
        }
    }
}

/// A run of one request more is the run before it, then that request.
proof fn lemma_run_step(v: PacketizerView, reqs: Seq<RequestView>)
    requires
        reqs.len() > 0,
    ensures
        after_enqueues(v, reqs) == after_enqueues(v, reqs.drop_last()).after_enqueue(reqs.last()),
        verdict_at(v, reqs, reqs.len() - 1) == after_enqueues(
            v,
            reqs.drop_last(),
        ).enqueue_verdict(reqs.last()),
        forall|i: int|
            0 <= i < reqs.len() - 1 ==> #[trigger] verdict_at(v, reqs.drop_last(), i)
                == verdict_at(v, reqs, i),
        forall|i: int|
            0 <= i < reqs.len() - 1 ==> #[trigger] xid_at(v, reqs.drop_last(), i) == xid_at(
                v,
                reqs,
                i,
            ),
        all_accepted(v, reqs) ==> all_accepted(v, reqs.drop_last()),
{
    let front = reqs.drop_last();
    assert(reqs.take(reqs.len() - 1) =~= front);
    assert forall|i: int| 0 <= i < front.len() implies #[trigger] verdict_at(v, front, i)
        == verdict_at(v, reqs, i) by {
        assert(front.take(i) =~= reqs.take(i));
    }
    if all_accepted(v, reqs) {
        assert forall|i: int| 0 <= i < front.len() implies (#[trigger] verdict_at(
            v,
            front,
            i,
        )) is Ok by {
            assert(verdict_at(v, reqs, i) is Ok);
        }
    }
}

/// What a run of accepted requests leaves: the invariant holds, the session
/// is untouched, the table and the queue have grown by the requests in
/// their order, and every id given is positive, was free before the run and
/// is held after it.
proof fn lemma_run_state(v: PacketizerView, reqs: Seq<RequestView>)
    requires
        v.wf(),
        all_accepted(v, reqs),
    ensures
        after_enqueues(v, reqs).wf(),
        after_enqueues(v, reqs).pending.len() == v.pending.len() + reqs.len(),
        after_enqueues(v, reqs).outbound == v.outbound + records_of(v, reqs),
        after_enqueues(v, reqs).session == v.session,
        reqs.len() > 0 ==> after_enqueues(v, reqs).next_xid == xid_succ(
            xid_at(v, reqs, reqs.len() - 1),
        ),
        forall|y: i32| has_xid(v.pending, y) ==> has_xid(after_enqueues(v, reqs).pending, y),
        forall|i: int|
            0 <= i < reqs.len() ==> {
                &&& (#[trigger] xid_at(v, reqs, i)) >= 1
                &&& !has_xid(v.pending, xid_at(v, reqs, i))
                &&& has_xid(after_enqueues(v, reqs).pending, xid_at(v, reqs, i))
            },
    decreases reqs.len(),
{
    let n = reqs.len() as int;
    if n == 0 {
        assert(v.outbound + records_of(v, reqs) =~= v.outbound);
    } else {
        let front = reqs.drop_last();
        lemma_run_step(v, reqs);
        lemma_run_state(v, front);
        let mid = after_enqueues(v, front);
        let end = after_enqueues(v, reqs);
        assert(verdict_at(v, reqs, n - 1) is Ok);
        lemma_enqueue_keeps_wf(mid, reqs.last());
        assert(end.outbound =~= v.outbound + records_of(v, reqs)) by {
            assert forall|i: int| 0 <= i < front.len() implies records_of(v, front)[i]
                == records_of(v, reqs)[i] by {
                assert(xid_at(v, front, i) == xid_at(v, reqs, i));
            }
        }
        assert forall|i: int| 0 <= i < n implies {
            &&& (#[trigger] xid_at(v, reqs, i)) >= 1
            &&& !has_xid(v.pending, xid_at(v, reqs, i))
            &&& has_xid(end.pending, xid_at(v, reqs, i))
        } by {
            if i < n - 1 {
                assert(xid_at(v, front, i) == xid_at(v, reqs, i));
                assert(has_xid(mid.pending, xid_at(v, front, i)));
            }
        }
    }
}

/// No two requests of a run of accepted requests get the same id.
proof fn lemma_run_distinct(v: PacketizerView, reqs: Seq<RequestView>)
    requires
        v.wf(),
        all_accepted(v, reqs),
    ensures
        forall|i: int, j: int|
            0 <= i < j < reqs.len() ==> #[trigger] xid_at(v, reqs, i) != #[trigger] xid_at(
                v,
                reqs,
                j,
            ),
    decreases reqs.len(),
{
    let n = reqs.len() as int;
    if n > 0 {
        let front = reqs.drop_last();
        lemma_run_step(v, reqs);
        lemma_run_distinct(v, front);
        lemma_run_state(v, front);
        let mid = after_enqueues(v, front);
        assert(verdict_at(v, reqs, n - 1) is Ok);
        lemma_enqueue_keeps_wf(mid, reqs.last());
        assert forall|i: int, j: int| 0 <= i < j < n implies #[trigger] xid_at(v, reqs, i)
            != #[trigger] xid_at(v, reqs, j) by {
            assert(xid_at(v, front, i) == xid_at(v, reqs, i));
            if j < n - 1 {
                assert(xid_at(v, front, j) == xid_at(v, reqs, j));
            } else {
                assert(has_xid(mid.pending, xid_at(v, front, i)));
            }
        }
    }
}

/// As long as the largest id is not held after a run of accepted requests,
/// an earlier request of the run has the smaller id.
proof fn lemma_run_increases(v: PacketizerView, reqs: Seq<RequestView>)
    requires
        v.wf(),
        all_accepted(v, reqs),
        !has_xid(after_enqueues(v, reqs).pending, i32::MAX),
    ensures
        forall|i: int, j: int|
            0 <= i < j < reqs.len() ==> #[trigger] xid_at(v, reqs, i) < #[trigger] xid_at(
                v,
                reqs,
                j,
            ),
    decreases reqs.len(),
{
    let n = reqs.len() as int;
    if n > 1 {
        let front = reqs.drop_last();
        lemma_run_step(v, reqs);
        lemma_run_state(v, front);
        let mid = after_enqueues(v, front);
        assert(verdict_at(v, reqs, n - 1) is Ok);
        let x = xid_at(v, reqs, n - 1);
        lemma_enqueue_keeps_wf(mid, reqs.last());
        assert(!has_xid(mid.pending, i32::MAX));
        lemma_run_increases(v, front);
        lemma_first_free_order(mid.pending, mid.next_xid);
        let before = xid_at(v, front, n - 2);
        assert(has_xid(mid.pending, before));
        assert(before < x);
        assert forall|i: int, j: int| 0 <= i < j < n implies #[trigger] xid_at(v, reqs, i)
            < #[trigger] xid_at(v, reqs, j) by {
            assert(xid_at(v, front, i) == xid_at(v, reqs, i));
            if j < n - 1 {
                assert(xid_at(v, front, j) == xid_at(v, reqs, j));
            } else if i < n - 2 {
                assert(xid_at(v, front, i) < xid_at(v, front, n - 2));
            }
        }
    }
}

/// Over any run of accepted requests, transaction ids go out in strictly
/// increasing order until the counter wraps, no two of them are the same,
/// and the records queue in the order of the requests. Every id given was
/// free before the run, all are pairwise different, each request is
/// outstanding under its id afterwards, and the queue has grown by the
/// requests' records in their order. As long as the largest id is not held
/// by an outstanding request, which it is before the counter can wrap, an
/// earlier request has the smaller id.
pub proof fn lemma_xids_increase_over(v: PacketizerView, reqs: Seq<RequestView>)
    requires
        v.wf(),
        all_accepted(v, reqs),
    ensures
        after_enqueues(v, reqs).wf(),
        after_enqueues(v, reqs).pending.len() == v.pending.len() + reqs.len(),
        after_enqueues(v, reqs).outbound == v.outbound + records_of(v, reqs),
        after_enqueues(v, reqs).session == v.session,
        forall|i: int|
            0 <= i < reqs.len() ==> {
                &&& (#[trigger] xid_at(v, reqs, i)) >= 1
                &&& !has_xid(v.pending, xid_at(v, reqs, i))
                &&& has_xid(after_enqueues(v, reqs).pending, xid_at(v, reqs, i))
            },
        forall|i: int, j: int|
            0 <= i < j < reqs.len() ==> #[trigger] xid_at(v, reqs, i) != #[trigger] xid_at(
                v,
                reqs,
                j,
            ),
        !has_xid(after_enqueues(v, reqs).pending, i32::MAX) ==> forall|i: int, j: int|
            0 <= i < j < reqs.len() ==> #[trigger] xid_at(v, reqs, i) < #[trigger] xid_at(
                v,
                reqs,
                j,
            ),
{
    lemma_run_state(v, reqs);
    lemma_run_distinct(v, reqs);
    if !has_xid(after_enqueues(v, reqs).pending, i32::MAX) {
        lemma_run_increases(v, reqs);
    }
}

/// A handshake answer that carries a session id and a timeout, both other
/// than 0, establishes the session under that id, and the session then
/// takes requests: an existence check that fits a record is accepted as
/// long as the limit of outstanding requests is not reached.
pub proof fn lemma_handshake_establishes(
    v: PacketizerView,
    resp: ResponseView,
    now: u64,
    path: Seq<char>,
    watch: bool,
)
    requires
        v.wf(),
        v.session.state == SessionState::Handshaking,
        resp is Connect,
        resp->Connect_session_id != 0,
        resp->Connect_timeout != 0,
        resp->Connect_passwd.len() <= MAX_PASSWD,
    ensures
        v.route(response_body(resp)) == RoutedView::Established,
        v.after_record(response_body(resp), now).wf(),
        v.after_record(response_body(resp), now).session.state == SessionState::Established,
        v.after_record(response_body(resp), now).session.session_id == resp->Connect_session_id,
        v.after_record(response_body(resp), now).session.timeout == resp->Connect_timeout,
        v.after_record(response_body(resp), now).pending == v.pending,
        v.after_record(response_body(resp), now).outbound == v.outbound,
        v.pending.len() < v.limit && 13 + encode_utf8(path).len() <= i32::MAX ==> v.after_record(
            response_body(resp),
            now,
        ).enqueue_verdict(RequestView::Exists { path, watch }) is Ok,
{
    lemma_response_round_trip(resp);
}

/// A one-shot watch fires at most once. Once an event on a node has been
/// delivered, a later event for the same node and kind reaches no sink, and
/// where the first event is one that triggers the watch of an existence
/// check, no later event on that node does, of whatever kind. Every watch
/// that the first event does not fire stays armed.
pub proof fn lemma_watch_fires_once(
    v: PacketizerView,
    first: WatchedEventView,
    later: WatchedEventView,
    zxid: i64,
    now: u64,
)
    requires
        v.wf(),
        v.session.state == SessionState::Established,
        encode_utf8(first.path).len() <= i32::MAX,
        later.path == first.path,
        later.kind == first.kind || triggers(WatchKind::Exists, first.kind),
    ensures
        ({
            let after = v.after_record(header_bytes(EVENT_XID, zxid, 0) + event_body(first), now);
            &&& after.watches == kept(v.watches, first)
            &&& after.route(header_bytes(EVENT_XID, zxid, 0) + event_body(later))
                == (RoutedView::Event { event: later, sinks: Seq::<u64>::empty() })
            &&& forall|w: WatchView|
                v.watches.contains(w) && !fires(w, first) ==> #[trigger] after.watches.contains(w)
        }),
{
    let after = v.after_record(header_bytes(EVENT_XID, zxid, 0) + event_body(first), now);
    lemma_event_reaches_its_watches(v, zxid, first, now);
    lemma_event_reaches_its_watches(after, zxid, later, now);
    if later.kind == first.kind {
        lemma_same_event_fires_nothing(v.watches, first, later);
    } else {
        lemma_fired_path_is_clear(v.watches, first, later);
    }
    assert forall|w: WatchView| v.watches.contains(w) && !fires(w, first) implies kept(
        v.watches,
        first,
    ).contains(w) by {
        lemma_unfired_stays(v.watches, first, w);
    }
}

} // verus!

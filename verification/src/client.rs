//! The typed face of the engine: a client that opens a session and asks
//! whether nodes exist.

use crate::codec::request_payload;
use crate::packetizer::{
    lemma_xids_increase, EnqueueError, Packetizer, PacketizerView, MAX_OUTSTANDING,
};
use crate::pending::Failure;
use crate::session::SessionState;
use crate::types::{Request, RequestView, Response, ResponseView, Stat, ZkError};
use crate::wire::lemma_i32_round_trip;
use vstd::prelude::*;

verus! {

/// Why a call did not give its result.
#[derive(Clone, Copy, Debug, PartialEq, Eq, Structural)]
pub enum ClientError {
    /// The request failed: the server refused it, or the connection or the
    /// session was lost.
    Failed(Failure),
    /// The server answered with a response of another operation.
    UnexpectedVariant,
}

/// What the completion of an existence check means to its caller: the node's
/// metadata where it exists, nothing where the server knows no such node,
/// and an error for every other failure or a response of the wrong kind.
pub open spec fn exists_outcome(outcome: Result<ResponseView, Failure>) -> Result<
    Option<Stat>,
    ClientError,
> {
    match outcome {
        Ok(ResponseView::Exists { stat }) => Ok(Some(stat)),
        Ok(_) => Err(ClientError::UnexpectedVariant),
        Err(Failure::Server(ZkError::NoNode)) => Ok(None),
        Err(f) => Err(ClientError::Failed(f)),
    }
}

/// The view of a request's outcome.
pub open spec fn outcome_view(outcome: Result<Response, Failure>) -> Result<ResponseView, Failure> {
    match outcome {
        Ok(resp) => Ok(resp@),
        Err(f) => Err(f),
    }
}

/// A client of the coordination service, holding one session.
pub struct ZooKeeper {
    /// The engine that carries the session.
    pub connection: Packetizer,
}

impl ZooKeeper {
    /// Starts a session: the client is connecting, asks the server for no
    /// particular timeout, and has nothing outstanding. The caller opens
    /// the socket and then calls `handshake`.
    pub fn connect() -> (r: ZooKeeper)
        ensures
            r.connection.wf(),
            r.connection@.session.state == SessionState::Connecting,
            r.connection@.session.session_id == 0,
            r.connection@.session.timeout == 0,
            r.connection@.session.passwd.len() == 0,
            r.connection@.session.last_zxid == 0,
            r.connection@.pending.len() == 0,
            r.connection@.outbound.len() == 0,
            r.connection@.watches.len() == 0,
            r.connection@.handshake is None,
            r.connection@.next_xid == 1,
            r.connection@.limit == MAX_OUTSTANDING,
    {
        let mut connection = Packetizer::new(0, MAX_OUTSTANDING);
        connection.connect();
        ZooKeeper { connection }
    }

    /// Begins the handshake on a socket that has connected at the time
    /// `now`, and hands back the record to write first. While no connection
    /// attempt is under way there is no handshake to make, and the next
    /// record due is handed back instead, if there is one.
    pub fn handshake(&mut self, now: u64) -> (r: Option<Vec<u8>>)
        requires
            old(self).connection.wf(),
        ensures
            final(self).connection.wf(),
            final(self).connection@ == old(self).connection@.after_socket_connected(
                now,
            ).after_next_frame(),
            match old(self).connection@.after_socket_connected(now).next_frame() {
                Some(bytes) => r is Some && r->Some_0@ == bytes,
                None => r is None,
            },
    {
        self.connection.socket_connected(now);
        self.connection.next_frame()
    }

    /// Asks whether the node at `path` exists, leaving no watch. The result
    /// is the transaction id under which the request is outstanding; its
    /// completion is to be read with `exists_result`.
    pub fn node_exists(&mut self, path: &str) -> (r: Result<i32, EnqueueError>)
        requires
            old(self).connection.wf(),
        ensures
            final(self).connection.wf(),
            r == old(self).connection@.enqueue_verdict(
                RequestView::Exists { path: path@, watch: false },
            ),
            final(self).connection@ == old(self).connection@.after_enqueue(
                RequestView::Exists { path: path@, watch: false },
            ),
    {
        self.connection.enqueue(Request::Exists { path: path.to_owned(), watch: false })
    }

    /// Reads the completion of an existence check: the node's metadata
    /// where it exists, nothing where the server knows no such node, and an
    /// error for every other failure and for a response of another kind.
    pub fn exists_result(outcome: Result<Response, Failure>) -> (r: Result<
        Option<Stat>,
        ClientError,
    >)
        ensures
            r == exists_outcome(outcome_view(outcome)),
    {
        match outcome {
            Ok(Response::Exists { stat }) => Ok(Some(stat)),
            Ok(_) => Err(ClientError::UnexpectedVariant),
            Err(Failure::Server(ZkError::NoNode)) => Ok(None),
            Err(f) => Err(ClientError::Failed(f)),
        }
    }
}

/// Asking twice whether the same node exists changes nothing but the table
/// of outstanding requests and the queue: session and watches stay as they
/// were, the two requests go out under different transaction ids with the
/// same operation and path, and equal completions read as equal results.
pub proof fn lemma_exists_is_idempotent(v: PacketizerView, path: Seq<char>)
    requires
        v.wf(),
        v.enqueue_verdict(RequestView::Exists { path, watch: false }) is Ok,
        v.after_enqueue(RequestView::Exists { path, watch: false }).enqueue_verdict(
            RequestView::Exists { path, watch: false },
        ) is Ok,
    ensures
        ({
            let req = RequestView::Exists { path, watch: false };
            let once = v.after_enqueue(req);
            let twice = once.after_enqueue(req);
            let x1 = v.enqueue_verdict(req)->Ok_0;
            let x2 = once.enqueue_verdict(req)->Ok_0;
            &&& twice.session == v.session
            &&& twice.watches == v.watches
            &&& x1 != x2
            &&& request_payload(req, x1).skip(4) == request_payload(req, x2).skip(4)
        }),
{
    let req = RequestView::Exists { path, watch: false };
    lemma_xids_increase(v, req, req);
    let x1 = v.enqueue_verdict(req)->Ok_0;
    let x2 = v.after_enqueue(req).enqueue_verdict(req)->Ok_0;
    lemma_i32_round_trip(x1);
    lemma_i32_round_trip(x2);
    assert(request_payload(req, x1).skip(4) =~= request_payload(req, x2).skip(4));
}

} // verus!

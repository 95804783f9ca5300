//! The binary record format: how requests, responses and events are laid out
//! in bytes, and the functions that write and read them.
//!
//! Every record travels behind a four-byte length. A request then holds its
//! transaction id, its opcode and its fields; a reply holds a header of
//! transaction id, server transaction id and error code, then its body. The
//! handshake records have a fixed layout of their own, with neither
//! transaction id nor opcode.

use crate::types::{
    EventKind, OpCode, Request, RequestView, Response, ResponseView, Stat, WatchedEvent,
    WatchedEventView, OP_EXISTS, OP_PING,
};
use crate::wire::{
    be_i32, be_i64, bool_byte, buffer_bytes, get_bool, get_buffer, get_i32, get_i64, get_string,
    i32_of_be, i64_of_be, lemma_i32_round_trip, lemma_i64_round_trip,
    lemma_take_buffer, lemma_take_string, lemma_take_bool, lemma_take_i32, lemma_take_i64, put_bool, put_buffer, put_bytes, put_i32,
    put_i64, put_string,
    string_bytes, take_bool, take_buffer, take_string, DecodeError,
};
use vstd::prelude::*;
use vstd::utf8::encode_utf8;

verus! {

/// Why a request could not be encoded.
#[derive(Clone, Copy, Debug, PartialEq, Eq, Structural)]
pub enum EncodeError {
    /// The record would be longer than its length field can say.
    TooLarge,
}

/// The fixed part that opens every reply.
#[derive(Clone, Copy, Debug, PartialEq, Eq, Structural)]
pub struct ReplyHeader {
    /// The transaction id of the request that is answered, or a reserved one.
    pub xid: i32,
    /// The server's transaction id at the time of the reply.
    pub zxid: i64,
    /// Zero for success, else the code of a server error.
    pub error_code: i32,
    /// The number of bytes that follow the header.
    pub remaining: usize,
}

/// The number of bytes of a reply header.
pub const HEADER_LEN: usize = 16;

/// The number of bytes of a node's metadata.
pub const STAT_LEN: usize = 68;

/// A node's metadata on the wire.
pub open spec fn stat_bytes(s: Stat) -> Seq<u8> {
    be_i64(s.czxid) + be_i64(s.mzxid) + be_i64(s.ctime) + be_i64(s.mtime) + be_i32(s.version)
        + be_i32(s.cversion) + be_i32(s.aversion) + be_i64(s.ephemeral_owner) + be_i32(
        s.data_length,
    ) + be_i32(s.num_children) + be_i64(s.pzxid)
}

/// The metadata that 68 bytes spell.
pub open spec fn stat_of_bytes(b: Seq<u8>) -> Stat
    recommends
        b.len() == STAT_LEN,
{
    Stat {
        czxid: i64_of_be(b.subrange(0, 8)),
        mzxid: i64_of_be(b.subrange(8, 16)),
        ctime: i64_of_be(b.subrange(16, 24)),
        mtime: i64_of_be(b.subrange(24, 32)),
        version: i32_of_be(b.subrange(32, 36)),
        cversion: i32_of_be(b.subrange(36, 40)),
        aversion: i32_of_be(b.subrange(40, 44)),
        ephemeral_owner: i64_of_be(b.subrange(44, 52)),
        data_length: i32_of_be(b.subrange(52, 56)),
        num_children: i32_of_be(b.subrange(56, 60)),
        pzxid: i64_of_be(b.subrange(60, 68)),
    }
}

/// What follows the length in a request record. The handshake carries no
/// transaction id and no opcode; every other request opens with both.
pub open spec fn request_payload(req: RequestView, xid: i32) -> Seq<u8> {
    match req {
        RequestView::Connect {
            protocol_version,
            last_zxid_seen,
            timeout,
            session_id,
            passwd,
            read_only,
        } => be_i32(protocol_version) + be_i64(last_zxid_seen) + be_i32(timeout) + be_i64(
            session_id,
        ) + buffer_bytes(passwd) + seq![bool_byte(read_only)],
        RequestView::Ping => be_i32(xid) + be_i32(OP_PING),
        RequestView::Exists { path, watch } => be_i32(xid) + be_i32(OP_EXISTS) + string_bytes(path)
            + seq![bool_byte(watch)],
    }
}

/// The number of bytes of `request_payload`.
pub open spec fn request_payload_len(req: RequestView) -> nat {
    match req {
        RequestView::Connect { passwd, .. } => 29 + passwd.len(),
        RequestView::Ping => 8,
        RequestView::Exists { path, .. } => 13 + encode_utf8(path).len(),
    }
}

/// A record: the length of the payload, then the payload.
pub open spec fn frame(payload: Seq<u8>) -> Seq<u8>
    recommends
        payload.len() <= i32::MAX,
{
    be_i32(payload.len() as i32) + payload
}

/// The body of a response: what follows the header in a reply, or the length
/// in a handshake answer.
pub open spec fn response_body(resp: ResponseView) -> Seq<u8> {
    match resp {
        ResponseView::Connect { protocol_version, timeout, session_id, passwd, read_only } => {
            be_i32(protocol_version) + be_i32(timeout) + be_i64(session_id) + buffer_bytes(passwd)
                + seq![bool_byte(read_only)]
        },
        ResponseView::Ping => Seq::empty(),
        ResponseView::Exists { stat } => stat_bytes(stat),
    }
}

/// The operation that a response answers; a handshake answer has none.
pub open spec fn response_op(resp: ResponseView) -> Option<OpCode> {
    match resp {
        ResponseView::Connect { .. } => None,
        ResponseView::Ping => Some(OpCode::Ping),
        ResponseView::Exists { .. } => Some(OpCode::Exists),
    }
}

/// The header of a reply on the wire.
pub open spec fn header_bytes(xid: i32, zxid: i64, error_code: i32) -> Seq<u8> {
    be_i32(xid) + be_i64(zxid) + be_i32(error_code)
}

/// The payload of a watch event, after its header.
pub open spec fn event_body(ev: WatchedEventView) -> Seq<u8>
    recommends
        i32::MIN <= ev.kind.spec_code() <= i32::MAX,
{
    be_i32(ev.kind.spec_code() as i32) + be_i32(ev.state) + string_bytes(ev.path)
}

/// Reads the header off the front of a reply.
pub open spec fn parse_header(s: Seq<u8>) -> Result<ReplyHeader, DecodeError> {
    if s.len() < HEADER_LEN {
        Err(DecodeError::Short)
    } else {
        Ok(
            ReplyHeader {
                xid: i32_of_be(s.subrange(0, 4)),
                zxid: i64_of_be(s.subrange(4, 12)),
                error_code: i32_of_be(s.subrange(12, 16)),
                remaining: (s.len() - HEADER_LEN) as usize,
            },
        )
    }
}

/// Reads the body of a handshake answer; nothing may follow it.
pub open spec fn parse_connect_response(s: Seq<u8>) -> Result<ResponseView, DecodeError> {
    if s.len() < 16 {
        Err(DecodeError::Short)
    } else {
        match take_buffer(s.skip(16)) {
            Err(e) => Err(e),
            Ok((passwd, rest)) => match take_bool(rest) {
                Err(e) => Err(e),
                Ok((read_only, end)) => if end.len() != 0 {
                    Err(DecodeError::Malformed)
                } else {
                    Ok(
                        ResponseView::Connect {
                            protocol_version: i32_of_be(s.subrange(0, 4)),
                            timeout: i32_of_be(s.subrange(4, 8)),
                            session_id: i64_of_be(s.subrange(8, 16)),
                            passwd,
                            read_only,
                        },
                    )
                },
            },
        }
    }
}

/// Reads the body of the response to `op`, or of a handshake answer where
/// `op` is `None`. The body must be exactly as long as its fields.
pub open spec fn parse_response(op: Option<OpCode>, s: Seq<u8>) -> Result<
    ResponseView,
    DecodeError,
> {
    match op {
        None => parse_connect_response(s),
        Some(OpCode::Ping) => if s.len() == 0 {
            Ok(ResponseView::Ping)
        } else {
            Err(DecodeError::Malformed)
        },
        Some(OpCode::Exists) => if s.len() < STAT_LEN {
            Err(DecodeError::Short)
        } else if s.len() > STAT_LEN {
            Err(DecodeError::Malformed)
        } else {
            Ok(ResponseView::Exists { stat: stat_of_bytes(s) })
        },
    }
}

/// Reads the body of the response to the operation that `opcode` names.
pub open spec fn parse_body(opcode: int, s: Seq<u8>) -> Result<ResponseView, DecodeError> {
    match OpCode::spec_from_code(opcode) {
        None => Err(DecodeError::UnknownOpcode),
        Some(op) => parse_response(Some(op), s),
    }
}

/// Reads the payload of a watch event; nothing may follow it.
pub open spec fn parse_event(s: Seq<u8>) -> Result<WatchedEventView, DecodeError> {
    if s.len() < 8 {
        Err(DecodeError::Short)
    } else {
        match EventKind::spec_from_code(i32_of_be(s.subrange(0, 4)) as int) {
            None => Err(DecodeError::Malformed),
            Some(kind) => match take_string(s.skip(8)) {
                Err(e) => Err(e),
                Ok((path, end)) => if end.len() != 0 {
                    Err(DecodeError::Malformed)
                } else {
                    Ok(WatchedEventView { kind, state: i32_of_be(s.subrange(4, 8)), path })
                },
            },
        }
    }
}

/// Whether a decoder's result is what the format says: the same error, or a
/// value with the expected view.
pub open spec fn decoded<T: View>(r: Result<T, DecodeError>, expected: Result<T::V, DecodeError>)
    -> bool {
    match expected {
        Ok(v) => r is Ok && r->Ok_0@ == v,
        Err(e) => r == Err::<T, DecodeError>(e),
    }
}

/// The payload of a request has the length that `request_payload_len` gives.
pub proof fn lemma_request_payload_len(req: RequestView, xid: i32)
    requires
        request_payload_len(req) <= i32::MAX,
    ensures
        request_payload(req, xid).len() == request_payload_len(req),
{
    match req {
        RequestView::Connect {
            protocol_version,
            last_zxid_seen,
            timeout,
            session_id,
            passwd,
            read_only,
        } => {
            lemma_i32_round_trip(protocol_version);
            lemma_i64_round_trip(last_zxid_seen);
            lemma_i32_round_trip(timeout);
            lemma_i64_round_trip(session_id);
            lemma_take_buffer(passwd, Seq::empty());
        },
        RequestView::Ping => {
            lemma_i32_round_trip(xid);
            lemma_i32_round_trip(OP_PING);
        },
        RequestView::Exists { path, watch } => {
            lemma_i32_round_trip(xid);
            lemma_i32_round_trip(OP_EXISTS);
            lemma_take_string(path, Seq::empty());
        },
    }
}

/// Makes a record of a payload: its length, then the payload.
pub fn frame_payload(payload: &Vec<u8>) -> (r: Vec<u8>)
    requires
        payload@.len() <= i32::MAX,
    ensures
        r@ == frame(payload@),
{
    let mut out: Vec<u8> = Vec::new();
    put_i32(&mut out, payload.len() as i32);
    put_bytes(&mut out, payload.as_slice());
    assert(out@ =~= frame(payload@));
    out
}

/// Encodes a request as one record: the length, then the transaction id and
/// opcode, then the fields. A handshake is written without transaction id
/// and opcode, so `xid` plays no part in it. The request is refused exactly
/// when its payload is longer than the length field can say.
pub fn encode(request: &Request, xid: i32) -> (r: Result<Vec<u8>, EncodeError>)
    ensures
        r is Ok <==> request_payload_len(request@) <= i32::MAX,
        r matches Ok(bytes) ==> bytes@ == frame(request_payload(request@, xid))
            && bytes@.len() == 4 + request_payload_len(request@),
{
    let mut body: Vec<u8> = Vec::new();
    match request {
        Request::Connect {
            protocol_version,
            last_zxid_seen,
            timeout,
            session_id,
            passwd,
            read_only,
        } => {
            if passwd.len() > 0x7fff_ffff - 29 {
                return Err(EncodeError::TooLarge);
            }
            put_i32(&mut body, *protocol_version);
            put_i64(&mut body, *last_zxid_seen);
            put_i32(&mut body, *timeout);
            put_i64(&mut body, *session_id);
            put_buffer(&mut body, passwd.as_slice());
            put_bool(&mut body, *read_only);
        },
        Request::Ping => {
            put_i32(&mut body, xid);
            put_i32(&mut body, OP_PING);
        },
        Request::Exists { path, watch } => {
            let utf8 = path.as_str().as_bytes();
            if utf8.len() > 0x7fff_ffff - 13 {
                return Err(EncodeError::TooLarge);
            }
            put_i32(&mut body, xid);
            put_i32(&mut body, OP_EXISTS);
            put_buffer(&mut body, utf8);
            put_bool(&mut body, *watch);
        },
    }
    proof {
        assert(body@ =~= request_payload(request@, xid));
        lemma_request_payload_len(request@, xid);
        lemma_i32_round_trip(body@.len() as i32);
    }
    Ok(frame_payload(&body))
}

/// Reads the header of a reply: transaction id, server transaction id and
/// error code, and how many bytes follow. A record shorter than a header is
/// the only input refused.
pub fn decode_header(bytes: &[u8]) -> (r: Result<ReplyHeader, DecodeError>)
    ensures
        r == parse_header(bytes@),
{
    if bytes.len() < HEADER_LEN {
        return Err(DecodeError::Short);
    }
    let mut pos: usize = 0;
    let xid = get_i32(bytes, &mut pos).unwrap();
    let zxid = get_i64(bytes, &mut pos).unwrap();
    let error_code = get_i32(bytes, &mut pos).unwrap();
    proof {
        assert(bytes@.skip(0).take(4) =~= bytes@.subrange(0, 4));
        assert(bytes@.skip(4).take(8) =~= bytes@.subrange(4, 12));
        assert(bytes@.skip(12).take(4) =~= bytes@.subrange(12, 16));
    }
    Ok(ReplyHeader { xid, zxid, error_code, remaining: bytes.len() - HEADER_LEN })
}

/// Reads a node's metadata that fills `bytes` exactly.
fn decode_stat(bytes: &[u8]) -> (r: Stat)
    requires
        bytes@.len() == STAT_LEN,
    ensures
        r == stat_of_bytes(bytes@),
{
    let mut pos: usize = 0;
    let czxid = get_i64(bytes, &mut pos);
    let mzxid = get_i64(bytes, &mut pos);
    let ctime = get_i64(bytes, &mut pos);
    let mtime = get_i64(bytes, &mut pos);
    let version = get_i32(bytes, &mut pos);
    let cversion = get_i32(bytes, &mut pos);
    let aversion = get_i32(bytes, &mut pos);
    let ephemeral_owner = get_i64(bytes, &mut pos);
    let data_length = get_i32(bytes, &mut pos);
    let num_children = get_i32(bytes, &mut pos);
    let pzxid = get_i64(bytes, &mut pos);
    proof {
        let b = bytes@;
        assert(b.skip(0).take(8) =~= b.subrange(0, 8));
        assert(b.skip(8).take(8) =~= b.subrange(8, 16));
        assert(b.skip(16).take(8) =~= b.subrange(16, 24));
        assert(b.skip(24).take(8) =~= b.subrange(24, 32));
        assert(b.skip(32).take(4) =~= b.subrange(32, 36));
        assert(b.skip(36).take(4) =~= b.subrange(36, 40));
        assert(b.skip(40).take(4) =~= b.subrange(40, 44));
        assert(b.skip(44).take(8) =~= b.subrange(44, 52));
        assert(b.skip(52).take(4) =~= b.subrange(52, 56));
        assert(b.skip(56).take(4) =~= b.subrange(56, 60));
        assert(b.skip(60).take(8) =~= b.subrange(60, 68));
    }
    Stat {
        czxid: czxid.unwrap(),
        mzxid: mzxid.unwrap(),
        ctime: ctime.unwrap(),
        mtime: mtime.unwrap(),
        version: version.unwrap(),
        cversion: cversion.unwrap(),
        aversion: aversion.unwrap(),
        ephemeral_owner: ephemeral_owner.unwrap(),
        data_length: data_length.unwrap(),
        num_children: num_children.unwrap(),
        pzxid: pzxid.unwrap(),
    }
}

/// Reads the body of a handshake answer: protocol version, negotiated
/// timeout, session id, password and read-only flag, with nothing after
/// them.
pub fn decode_connect_response(bytes: &[u8]) -> (r: Result<Response, DecodeError>)
    ensures
        decoded(r, parse_connect_response(bytes@)),
{
    if bytes.len() < 16 {
        return Err(DecodeError::Short);
    }
    let mut pos: usize = 0;
    let protocol_version = get_i32(bytes, &mut pos).unwrap();
    let timeout = get_i32(bytes, &mut pos).unwrap();
    let session_id = get_i64(bytes, &mut pos).unwrap();
    proof {
        assert(bytes@.skip(0).take(4) =~= bytes@.subrange(0, 4));
        assert(bytes@.skip(4).take(4) =~= bytes@.subrange(4, 8));
        assert(bytes@.skip(8).take(8) =~= bytes@.subrange(8, 16));
    }
    let passwd = match get_buffer(bytes, &mut pos) {
        Ok(passwd) => passwd,
        Err(e) => {
            return Err(e);
        },
    };
    let read_only = match get_bool(bytes, &mut pos) {
        Ok(read_only) => read_only,
        Err(e) => {
            return Err(e);
        },
    };
    if pos != bytes.len() {
        return Err(DecodeError::Malformed);
    }
    Ok(Response::Connect { protocol_version, timeout, session_id, passwd, read_only })
}

/// Reads the body of the response to the operation that `opcode` names. An
/// opcode that names no operation is refused before the body is looked at;
/// a body shorter than its fields is short, and one with bytes left over is
/// malformed.
pub fn decode_body(opcode: i32, bytes: &[u8]) -> (r: Result<Response, DecodeError>)
    ensures
        decoded(r, parse_body(opcode as int, bytes@)),
{
    match OpCode::from_code(opcode) {
        None => Err(DecodeError::UnknownOpcode),
        Some(OpCode::Ping) => {
            if bytes.len() == 0 {
                Ok(Response::Ping)
            } else {
                Err(DecodeError::Malformed)
            }
        },
        Some(OpCode::Exists) => {
            if bytes.len() < STAT_LEN {
                Err(DecodeError::Short)
            } else if bytes.len() > STAT_LEN {
                Err(DecodeError::Malformed)
            } else {
                Ok(Response::Exists { stat: decode_stat(bytes) })
            }
        },
    }
}

/// Reads the payload of a watch event: kind, session state and path, with
/// nothing after them. A kind that has no name is malformed.
pub fn decode_event(bytes: &[u8]) -> (r: Result<WatchedEvent, DecodeError>)
    ensures
        decoded(r, parse_event(bytes@)),
{
    if bytes.len() < 8 {
        return Err(DecodeError::Short);
    }
    let mut pos: usize = 0;
    let kind_code = get_i32(bytes, &mut pos).unwrap();
    let state = get_i32(bytes, &mut pos).unwrap();
    proof {
        assert(bytes@.skip(0).take(4) =~= bytes@.subrange(0, 4));
        assert(bytes@.skip(4).take(4) =~= bytes@.subrange(4, 8));
    }
    let kind = match EventKind::from_code(kind_code) {
        Some(kind) => kind,
        None => {
            return Err(DecodeError::Malformed);
        },
    };
    let path = match get_string(bytes, &mut pos) {
        Ok(path) => path,
        Err(e) => {
            return Err(e);
        },
    };
    if pos != bytes.len() {
        return Err(DecodeError::Malformed);
    }
    Ok(WatchedEvent { kind, state, path })
}

/// Reads the payload of a handshake request; nothing may follow it.
pub open spec fn parse_connect_request(s: Seq<u8>) -> Result<RequestView, DecodeError> {
    if s.len() < 24 {
        Err(DecodeError::Short)
    } else {
        match take_buffer(s.skip(24)) {
            Err(e) => Err(e),
            Ok((passwd, rest)) => match take_bool(rest) {
                Err(e) => Err(e),
                Ok((read_only, end)) => if end.len() != 0 {
                    Err(DecodeError::Malformed)
                } else {
                    Ok(
                        RequestView::Connect {
                            protocol_version: i32_of_be(s.subrange(0, 4)),
                            last_zxid_seen: i64_of_be(s.subrange(4, 12)),
                            timeout: i32_of_be(s.subrange(12, 16)),
                            session_id: i64_of_be(s.subrange(16, 24)),
                            passwd,
                            read_only,
                        },
                    )
                },
            },
        }
    }
}

/// Reads the payload of a request that carries a transaction id and an
/// opcode; nothing may follow its fields.
pub open spec fn parse_request(s: Seq<u8>) -> Result<(i32, RequestView), DecodeError> {
    if s.len() < 8 {
        Err(DecodeError::Short)
    } else {
        let xid = i32_of_be(s.subrange(0, 4));
        match OpCode::spec_from_code(i32_of_be(s.subrange(4, 8)) as int) {
            None => Err(DecodeError::UnknownOpcode),
            Some(OpCode::Ping) => if s.len() == 8 {
                Ok((xid, RequestView::Ping))
            } else {
                Err(DecodeError::Malformed)
            },
            Some(OpCode::Exists) => match take_string(s.skip(8)) {
                Err(e) => Err(e),
                Ok((path, rest)) => match take_bool(rest) {
                    Err(e) => Err(e),
                    Ok((watch, end)) => if end.len() != 0 {
                        Err(DecodeError::Malformed)
                    } else {
                        Ok((xid, RequestView::Exists { path, watch }))
                    },
                },
            },
        }
    }
}

/// The number of bytes of `response_body`.
pub open spec fn response_body_len(resp: ResponseView) -> nat {
    match resp {
        ResponseView::Connect { passwd, .. } => 21 + passwd.len(),
        ResponseView::Ping => 0,
        ResponseView::Exists { .. } => STAT_LEN as nat,
    }
}

/// Reads the payload of a handshake request: protocol version, last server
/// transaction seen, timeout, session id, password and read-only flag.
pub fn decode_connect_request(bytes: &[u8]) -> (r: Result<Request, DecodeError>)
    ensures
        decoded(r, parse_connect_request(bytes@)),
{
    if bytes.len() < 24 {
        return Err(DecodeError::Short);
    }
    let mut pos: usize = 0;
    let protocol_version = get_i32(bytes, &mut pos).unwrap();
    let last_zxid_seen = get_i64(bytes, &mut pos).unwrap();
    let timeout = get_i32(bytes, &mut pos).unwrap();
    let session_id = get_i64(bytes, &mut pos).unwrap();
    proof {
        assert(bytes@.skip(0).take(4) =~= bytes@.subrange(0, 4));
        assert(bytes@.skip(4).take(8) =~= bytes@.subrange(4, 12));
        assert(bytes@.skip(12).take(4) =~= bytes@.subrange(12, 16));
        assert(bytes@.skip(16).take(8) =~= bytes@.subrange(16, 24));
    }
    let passwd = match get_buffer(bytes, &mut pos) {
        Ok(passwd) => passwd,
        Err(e) => {
            return Err(e);
        },
    };
    let read_only = match get_bool(bytes, &mut pos) {
        Ok(read_only) => read_only,
        Err(e) => {
            return Err(e);
        },
    };
    if pos != bytes.len() {
        return Err(DecodeError::Malformed);
    }
    Ok(
        Request::Connect {
            protocol_version,
            last_zxid_seen,
            timeout,
            session_id,
            passwd,
            read_only,
        },
    )
}

/// Reads the payload of a request that carries a transaction id and an
/// opcode, and gives both the id and the request.
pub fn decode_request(bytes: &[u8]) -> (r: Result<(i32, Request), DecodeError>)
    ensures
        match parse_request(bytes@) {
            Ok((xid, req)) => r is Ok && r->Ok_0.0 == xid && r->Ok_0.1@ == req,
            Err(e) => r == Err::<(i32, Request), DecodeError>(e),
        },
{
    if bytes.len() < 8 {
        return Err(DecodeError::Short);
    }
    let mut pos: usize = 0;
    let xid = get_i32(bytes, &mut pos).unwrap();
    let opcode = get_i32(bytes, &mut pos).unwrap();
    proof {
        assert(bytes@.skip(0).take(4) =~= bytes@.subrange(0, 4));
        assert(bytes@.skip(4).take(4) =~= bytes@.subrange(4, 8));
    }
    match OpCode::from_code(opcode) {
        None => Err(DecodeError::UnknownOpcode),
        Some(OpCode::Ping) => {
            if bytes.len() == 8 {
                Ok((xid, Request::Ping))
            } else {
                Err(DecodeError::Malformed)
            }
        },
        Some(OpCode::Exists) => {
            let path = match get_string(bytes, &mut pos) {
                Ok(path) => path,
                Err(e) => {
                    return Err(e);
                },
            };
            let watch = match get_bool(bytes, &mut pos) {
                Ok(watch) => watch,
                Err(e) => {
                    return Err(e);
                },
            };
            if pos != bytes.len() {
                return Err(DecodeError::Malformed);
            }
            Ok((xid, Request::Exists { path, watch }))
        },
    }
}

/// Writes a reply header.
pub fn encode_header(xid: i32, zxid: i64, error_code: i32) -> (r: Vec<u8>)
    ensures
        r@ == header_bytes(xid, zxid, error_code),
        r@.len() == HEADER_LEN,
{
    let mut out: Vec<u8> = Vec::new();
    put_i32(&mut out, xid);
    put_i64(&mut out, zxid);
    put_i32(&mut out, error_code);
    proof {
        lemma_i32_round_trip(xid);
        lemma_i64_round_trip(zxid);
        lemma_i32_round_trip(error_code);
        assert(out@ =~= header_bytes(xid, zxid, error_code));
    }
    out
}

/// Writes a node's metadata.
fn put_stat(buf: &mut Vec<u8>, s: &Stat)
    ensures
        final(buf)@ == old(buf)@ + stat_bytes(*s),
{
    put_i64(buf, s.czxid);
    put_i64(buf, s.mzxid);
    put_i64(buf, s.ctime);
    put_i64(buf, s.mtime);
    put_i32(buf, s.version);
    put_i32(buf, s.cversion);
    put_i32(buf, s.aversion);
    put_i64(buf, s.ephemeral_owner);
    put_i32(buf, s.data_length);
    put_i32(buf, s.num_children);
    put_i64(buf, s.pzxid);
    assert(buf@ =~= old(buf)@ + stat_bytes(*s));
}

/// Writes the body of a response, without header or length. It is refused
/// exactly when a handshake answer would not fit a record.
pub fn encode_response(resp: &Response) -> (r: Result<Vec<u8>, EncodeError>)
    ensures
        r is Ok <==> response_body_len(resp@) <= i32::MAX,
        r matches Ok(bytes) ==> bytes@ == response_body(resp@),
{
    let mut body: Vec<u8> = Vec::new();
    match resp {
        Response::Connect { protocol_version, timeout, session_id, passwd, read_only } => {
            if passwd.len() > 0x7fff_ffff - 21 {
                return Err(EncodeError::TooLarge);
            }
            put_i32(&mut body, *protocol_version);
            put_i32(&mut body, *timeout);
            put_i64(&mut body, *session_id);
            put_buffer(&mut body, passwd.as_slice());
            put_bool(&mut body, *read_only);
        },
        Response::Ping => {},
        Response::Exists { stat } => {
            put_stat(&mut body, stat);
        },
    }
    assert(body@ =~= response_body(resp@));
    Ok(body)
}

/// Writes the payload of a watch event, without header or length. It is
/// refused exactly when the path is too long for its length field.
pub fn encode_event(ev: &WatchedEvent) -> (r: Result<Vec<u8>, EncodeError>)
    ensures
        r is Ok <==> encode_utf8(ev@.path).len() <= i32::MAX,
        r matches Ok(bytes) ==> bytes@ == event_body(ev@),
{
    let utf8 = ev.path.as_str().as_bytes();
    if utf8.len() > 0x7fff_ffff {
        return Err(EncodeError::TooLarge);
    }
    let mut body: Vec<u8> = Vec::new();
    put_i32(&mut body, ev.kind.code());
    put_i32(&mut body, ev.state);
    put_string(&mut body, ev.path.as_str());
    assert(body@ =~= event_body(ev@));
    Ok(body)
}

/// A node's metadata takes 68 bytes and reads back as itself.
pub proof fn lemma_stat_round_trip(s: Stat)
    ensures
        stat_bytes(s).len() == STAT_LEN,
        stat_of_bytes(stat_bytes(s)) == s,
{
    lemma_i64_round_trip(s.czxid);
    lemma_i64_round_trip(s.mzxid);
    lemma_i64_round_trip(s.ctime);
    lemma_i64_round_trip(s.mtime);
    lemma_i32_round_trip(s.version);
    lemma_i32_round_trip(s.cversion);
    lemma_i32_round_trip(s.aversion);
    lemma_i64_round_trip(s.ephemeral_owner);
    lemma_i32_round_trip(s.data_length);
    lemma_i32_round_trip(s.num_children);
    lemma_i64_round_trip(s.pzxid);
    let b = stat_bytes(s);
    assert(b.subrange(0, 8) =~= be_i64(s.czxid));
    assert(b.subrange(8, 16) =~= be_i64(s.mzxid));
    assert(b.subrange(16, 24) =~= be_i64(s.ctime));
    assert(b.subrange(24, 32) =~= be_i64(s.mtime));
    assert(b.subrange(32, 36) =~= be_i32(s.version));
    assert(b.subrange(36, 40) =~= be_i32(s.cversion));
    assert(b.subrange(40, 44) =~= be_i32(s.aversion));
    assert(b.subrange(44, 52) =~= be_i64(s.ephemeral_owner));
    assert(b.subrange(52, 56) =~= be_i32(s.data_length));
    assert(b.subrange(56, 60) =~= be_i32(s.num_children));
    assert(b.subrange(60, 68) =~= be_i64(s.pzxid));
}

/// Decoding the body of an encoded response gives the response back, for
/// the handshake answer and for the answer to every operation.
pub proof fn lemma_response_round_trip(resp: ResponseView)
    requires
        response_body_len(resp) <= i32::MAX,
    ensures
        response_body(resp).len() == response_body_len(resp),
        parse_response(response_op(resp), response_body(resp)) == Ok::<
            ResponseView,
            DecodeError,
        >(resp),
        response_op(resp) matches Some(op) ==> parse_body(op.spec_code(), response_body(resp))
            == Ok::<ResponseView, DecodeError>(resp),
{
    match resp {
        ResponseView::Connect { protocol_version, timeout, session_id, passwd, read_only } => {
            lemma_i32_round_trip(protocol_version);
            lemma_i32_round_trip(timeout);
            lemma_i64_round_trip(session_id);
            let tail = buffer_bytes(passwd) + seq![bool_byte(read_only)];
            let s = response_body(resp);
            lemma_take_buffer(passwd, seq![bool_byte(read_only)]);
            lemma_take_bool(read_only, Seq::empty());
            assert(seq![bool_byte(read_only)] + Seq::<u8>::empty() =~= seq![bool_byte(read_only)]);
            assert(s.skip(16) =~= tail);
            assert(s.subrange(0, 4) =~= be_i32(protocol_version));
            assert(s.subrange(4, 8) =~= be_i32(timeout));
            assert(s.subrange(8, 16) =~= be_i64(session_id));
        },
        ResponseView::Ping => {},
        ResponseView::Exists { stat } => {
            lemma_stat_round_trip(stat);
        },
    }
}

/// Decoding the payload of an encoded handshake gives the handshake back.
proof fn lemma_connect_round_trip(req: RequestView, xid: i32)
    requires
        req is Connect,
        request_payload_len(req) <= i32::MAX,
    ensures
        parse_connect_request(request_payload(req, xid)) == Ok::<RequestView, DecodeError>(req),
{
    let s = request_payload(req, xid);
    match req {
        RequestView::Connect {
            protocol_version,
            last_zxid_seen,
            timeout,
            session_id,
            passwd,
            read_only,
        } => {
            lemma_i32_round_trip(protocol_version);
            lemma_i64_round_trip(last_zxid_seen);
            lemma_i32_round_trip(timeout);
            lemma_i64_round_trip(session_id);
            lemma_take_buffer(passwd, seq![bool_byte(read_only)]);
            lemma_take_bool(read_only, Seq::empty());
            assert(seq![bool_byte(read_only)] + Seq::<u8>::empty() =~= seq![bool_byte(read_only)]);
            assert(s.skip(24) =~= buffer_bytes(passwd) + seq![bool_byte(read_only)]);
            assert(s.subrange(0, 4) =~= be_i32(protocol_version));
            assert(s.subrange(4, 12) =~= be_i64(last_zxid_seen));
            assert(s.subrange(12, 16) =~= be_i32(timeout));
            assert(s.subrange(16, 24) =~= be_i64(session_id));
        },
        _ => {},
    }
}

/// Decoding the payload of an encoded existence check gives it back.
proof fn lemma_exists_round_trip(path: Seq<char>, watch: bool, xid: i32)
    requires
        13 + encode_utf8(path).len() <= i32::MAX,
    ensures
        parse_request(request_payload(RequestView::Exists { path, watch }, xid)) == Ok::<
            (i32, RequestView),
            DecodeError,
        >((xid, RequestView::Exists { path, watch })),
{
    let s = request_payload(RequestView::Exists { path, watch }, xid);
    lemma_i32_round_trip(xid);
    lemma_i32_round_trip(OP_EXISTS);
    lemma_take_string(path, seq![bool_byte(watch)]);
    lemma_take_bool(watch, Seq::empty());
    assert(seq![bool_byte(watch)] + Seq::<u8>::empty() =~= seq![bool_byte(watch)]);
    assert(s.skip(8) =~= string_bytes(path) + seq![bool_byte(watch)]);
    assert(s.subrange(0, 4) =~= be_i32(xid));
    assert(s.subrange(4, 8) =~= be_i32(OP_EXISTS));
}

/// Decoding the payload of an encoded request gives the request back, with
/// its transaction id where it carries one.
pub proof fn lemma_request_round_trip(req: RequestView, xid: i32)
    requires
        request_payload_len(req) <= i32::MAX,
    ensures
        req is Connect ==> parse_connect_request(request_payload(req, xid)) == Ok::<
            RequestView,
            DecodeError,
        >(req),
        !(req is Connect) ==> parse_request(request_payload(req, xid)) == Ok::<
            (i32, RequestView),
            DecodeError,
        >((xid, req)),
{
    let s = request_payload(req, xid);
    match req {
        RequestView::Connect { .. } => {
            lemma_connect_round_trip(req, xid);
        },
        RequestView::Ping => {
            lemma_i32_round_trip(xid);
            lemma_i32_round_trip(OP_PING);
            assert(s.subrange(0, 4) =~= be_i32(xid));
            assert(s.subrange(4, 8) =~= be_i32(OP_PING));
        },
        RequestView::Exists { path, watch } => {
            lemma_exists_round_trip(path, watch, xid);
        },
    }
}

/// Decoding an encoded reply header gives its three fields back, and counts
/// the bytes that follow it.
pub proof fn lemma_header_round_trip(xid: i32, zxid: i64, error_code: i32, body: Seq<u8>)
    requires
        body.len() <= usize::MAX,
    ensures
        header_bytes(xid, zxid, error_code).len() == HEADER_LEN,
        parse_header(header_bytes(xid, zxid, error_code) + body) == Ok::<
            ReplyHeader,
            DecodeError,
        >(ReplyHeader { xid, zxid, error_code, remaining: body.len() as usize }),
{
    lemma_i32_round_trip(xid);
    lemma_i64_round_trip(zxid);
    lemma_i32_round_trip(error_code);
    let s = header_bytes(xid, zxid, error_code) + body;
    assert(s.subrange(0, 4) =~= be_i32(xid));
    assert(s.subrange(4, 12) =~= be_i64(zxid));
    assert(s.subrange(12, 16) =~= be_i32(error_code));
}

/// Decoding the payload of an encoded watch event gives the event back.
pub proof fn lemma_event_round_trip(ev: WatchedEventView)
    requires
        encode_utf8(ev.path).len() <= i32::MAX,
    ensures
        parse_event(event_body(ev)) == Ok::<WatchedEventView, DecodeError>(ev),
{
    let code = ev.kind.spec_code() as i32;
    lemma_i32_round_trip(code);
    lemma_i32_round_trip(ev.state);
    lemma_take_string(ev.path, Seq::empty());
    let s = event_body(ev);
    assert(string_bytes(ev.path) + Seq::<u8>::empty() =~= string_bytes(ev.path));
    assert(s.skip(8) =~= string_bytes(ev.path));
    assert(s.subrange(0, 4) =~= be_i32(code));
    assert(s.subrange(4, 8) =~= be_i32(ev.state));
}

/// Where the first record of a byte stream ends, counted from the start of
/// the stream. There is no answer yet while the length or the payload is
/// still incomplete, and no record at all behind a negative length.
pub open spec fn record_end(s: Seq<u8>) -> Result<Option<int>, DecodeError> {
    if s.len() < 4 {
        Ok(None)
    } else {
        let len = i32_of_be(s.take(4));
        if len < 0 {
            Err(DecodeError::Malformed)
        } else if s.len() < 4 + len {
            Ok(None)
        } else {
            Ok(Some(4 + len))
        }
    }
}

/// Looks for one whole record at the front of the bytes read so far. Where
/// there is one, the result is where it ends: its payload lies between
/// offset 4 and that place. Where the bytes stop short of a whole record the
/// result is `None`, and the reader is to wait for more.
pub fn next_record(buf: &[u8]) -> (r: Result<Option<usize>, DecodeError>)
    ensures
        match record_end(buf@) {
            Ok(Some(end)) => r == Ok::<Option<usize>, DecodeError>(Some(end as usize)) && 4 <= end
                <= buf@.len(),
            Ok(None) => r == Ok::<Option<usize>, DecodeError>(None),
            Err(e) => r == Err::<Option<usize>, DecodeError>(e),
        },
{
    let mut pos: usize = 0;
    let len: i32 = match get_i32(buf, &mut pos) {
        Ok(len) => len,
        Err(_) => {
            return Ok(None);
        },
    };
    assert(buf@.skip(0) =~= buf@);
    if len < 0 {
        return Err(DecodeError::Malformed);
    }
    let n: usize = len as usize;
    if buf.len() - 4 < n {
        return Ok(None);
    }
    Ok(Some(4 + n))
}

/// A record in a byte stream is found whole, whatever follows it, and its
/// payload is what was framed; no proper prefix of it is taken for a record.
pub proof fn lemma_frame_is_one_record(payload: Seq<u8>, rest: Seq<u8>, n: int)
    requires
        payload.len() <= i32::MAX,
        0 <= n < 4 + payload.len(),
    ensures
        frame(payload).len() == 4 + payload.len(),
        record_end(frame(payload) + rest) == Ok::<Option<int>, DecodeError>(
            Some(4 + payload.len() as int),
        ),
        (frame(payload) + rest).subrange(4, 4 + payload.len() as int) == payload,
        record_end(frame(payload).take(n)) == Ok::<Option<int>, DecodeError>(None),
{
    let len = payload.len() as i32;
    lemma_i32_round_trip(len);
    let s = frame(payload) + rest;
    assert(s.take(4) =~= be_i32(len));
    assert(s.subrange(4, 4 + payload.len() as int) =~= payload);
    if n >= 4 {
        assert(frame(payload).take(n).take(4) =~= be_i32(len));
    }
}

} // verus!

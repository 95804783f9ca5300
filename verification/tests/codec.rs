use zk_client::codec::{
    decode_body, decode_connect_request, decode_connect_response, decode_event, decode_header,
    decode_request, encode, encode_event, encode_header, encode_response, frame_payload,
    next_record, EncodeError, ReplyHeader,
};
use zk_client::wire::{get_bool, get_buffer, get_i32, get_i64, get_string, put_i32, put_i64};
use zk_client::{DecodeError, EventKind, OpCode, Request, Response, Stat, WatchedEvent, ZkError};

fn sample_stat() -> Stat {
    Stat {
        czxid: 1,
        mzxid: 2,
        ctime: 3,
        mtime: 4,
        version: 5,
        cversion: 6,
        aversion: 7,
        ephemeral_owner: 8,
        data_length: 9,
        num_children: 10,
        pzxid: 11,
    }
}

fn sample_stat_bytes() -> Vec<u8> {
    vec![
        0, 0, 0, 0, 0, 0, 0, 1, 0, 0, 0, 0, 0, 0, 0, 2, 0, 0, 0, 0, 0, 0, 0, 3, 0, 0, 0, 0, 0, 0,
        0, 4, 0, 0, 0, 5, 0, 0, 0, 6, 0, 0, 0, 7, 0, 0, 0, 0, 0, 0, 0, 8, 0, 0, 0, 9, 0, 0, 0, 10,
        0, 0, 0, 0, 0, 0, 0, 11,
    ]
}

#[test]
fn ping_is_twelve_bytes_under_the_reserved_xid() {
    let bytes = encode(&Request::Ping, -2).unwrap();
    assert_eq!(bytes, vec![0, 0, 0, 8, 0xff, 0xff, 0xff, 0xfe, 0, 0, 0, 11]);
}

#[test]
fn exists_request_has_xid_opcode_path_and_watch_flag() {
    let req = Request::Exists { path: "/foo".to_string(), watch: false };
    let bytes = encode(&req, 1).unwrap();
    assert_eq!(
        bytes,
        vec![0, 0, 0, 17, 0, 0, 0, 1, 0, 0, 0, 3, 0, 0, 0, 4, b'/', b'f', b'o', b'o', 0]
    );
    let watched = Request::Exists { path: "/foo".to_string(), watch: true };
    let bytes = encode(&watched, 0x0102_0304).unwrap();
    assert_eq!(
        bytes,
        vec![0, 0, 0, 17, 1, 2, 3, 4, 0, 0, 0, 3, 0, 0, 0, 4, b'/', b'f', b'o', b'o', 1]
    );
}

#[test]
fn path_is_written_as_utf8_with_its_byte_length() {
    let req = Request::Exists { path: "/é".to_string(), watch: false };
    let bytes = encode(&req, 7).unwrap();
    assert_eq!(
        bytes,
        vec![0, 0, 0, 16, 0, 0, 0, 7, 0, 0, 0, 3, 0, 0, 0, 3, b'/', 0xc3, 0xa9, 0]
    );
}

#[test]
fn fresh_handshake_is_twenty_nine_zero_bytes() {
    let req = Request::Connect {
        protocol_version: 0,
        last_zxid_seen: 0,
        timeout: 0,
        session_id: 0,
        passwd: vec![],
        read_only: false,
    };
    let bytes = encode(&req, 99).unwrap();
    let mut expected = vec![0u8, 0, 0, 29];
    expected.extend(vec![0u8; 29]);
    assert_eq!(bytes, expected);
}

#[test]
fn handshake_fields_are_big_endian_in_fixed_order() {
    let req = Request::Connect {
        protocol_version: 1,
        last_zxid_seen: -1,
        timeout: 30000,
        session_id: 0x0102_0304_0506_0708,
        passwd: vec![9, 8, 7],
        read_only: true,
    };
    let bytes = encode(&req, 0).unwrap();
    assert_eq!(
        bytes,
        vec![
            0, 0, 0, 32, 0, 0, 0, 1, 0xff, 0xff, 0xff, 0xff, 0xff, 0xff, 0xff, 0xff, 0, 0, 0x75,
            0x30, 1, 2, 3, 4, 5, 6, 7, 8, 0, 0, 0, 3, 9, 8, 7, 1
        ]
    );
}

#[test]
fn integers_are_written_most_significant_byte_first() {
    let mut buf = vec![0xaa];
    put_i32(&mut buf, i32::MIN);
    put_i32(&mut buf, i32::MAX);
    put_i32(&mut buf, -2);
    put_i64(&mut buf, i64::MIN);
    put_i64(&mut buf, 0x1122_3344_5566_7788);
    assert_eq!(
        buf,
        vec![
            0xaa, 0x80, 0, 0, 0, 0x7f, 0xff, 0xff, 0xff, 0xff, 0xff, 0xff, 0xfe, 0x80, 0, 0, 0, 0,
            0, 0, 0, 0x11, 0x22, 0x33, 0x44, 0x55, 0x66, 0x77, 0x88
        ]
    );
}

#[test]
fn readers_advance_and_report_short_input() {
    let buf = vec![0xff, 0xff, 0xff, 0xfe, 0, 0, 0, 0, 0, 0, 1, 0, 1];
    let mut pos = 0usize;
    assert_eq!(get_i32(&buf, &mut pos), Ok(-2));
    assert_eq!(pos, 4);
    assert_eq!(get_i64(&buf, &mut pos), Ok(256));
    assert_eq!(pos, 12);
    assert_eq!(get_i32(&buf, &mut pos), Err(DecodeError::Short));
    assert_eq!(get_i64(&buf, &mut pos), Err(DecodeError::Short));
    assert_eq!(pos, 12);
    assert_eq!(get_bool(&buf, &mut pos), Ok(true));
    assert_eq!(pos, 13);
    assert_eq!(get_bool(&buf, &mut pos), Err(DecodeError::Short));
}

#[test]
fn flag_must_be_zero_or_one() {
    let mut pos = 0usize;
    assert_eq!(get_bool(&[0], &mut pos), Ok(false));
    pos = 0;
    assert_eq!(get_bool(&[2], &mut pos), Err(DecodeError::Malformed));
    assert_eq!(pos, 0);
}

#[test]
fn buffer_length_minus_one_means_absent() {
    let mut pos = 0usize;
    assert_eq!(get_buffer(&[0xff, 0xff, 0xff, 0xff, 5], &mut pos), Ok(vec![]));
    assert_eq!(pos, 4);
    pos = 0;
    assert_eq!(get_buffer(&[0, 0, 0, 2, 5, 6, 7], &mut pos), Ok(vec![5, 6]));
    assert_eq!(pos, 6);
    pos = 0;
    assert_eq!(get_buffer(&[0xff, 0xff, 0xff, 0xfe], &mut pos), Err(DecodeError::Malformed));
    pos = 0;
    assert_eq!(get_buffer(&[0, 0, 0, 3, 5, 6], &mut pos), Err(DecodeError::Short));
    assert_eq!(pos, 0);
    assert_eq!(get_buffer(&[0, 0, 0], &mut pos), Err(DecodeError::Short));
}

#[test]
fn string_must_be_utf8() {
    let mut pos = 0usize;
    assert_eq!(get_string(&[0, 0, 0, 3, b'/', 0xc3, 0xa9], &mut pos), Ok("/é".to_string()));
    assert_eq!(pos, 7);
    pos = 0;
    assert_eq!(get_string(&[0, 0, 0, 2, b'/', 0xc3], &mut pos), Err(DecodeError::Malformed));
    assert_eq!(pos, 0);
    assert_eq!(get_string(&[0, 0, 0, 1, 0xff], &mut pos), Err(DecodeError::Malformed));
    assert_eq!(get_string(&[0xff, 0xff, 0xff, 0xff], &mut pos), Ok(String::new()));
}

#[test]
fn header_is_xid_zxid_error_code() {
    let bytes = vec![0, 0, 0, 5, 0, 0, 0, 0, 0, 0, 1, 2, 0xff, 0xff, 0xff, 0x9b, 1, 2, 3];
    assert_eq!(
        decode_header(&bytes),
        Ok(ReplyHeader { xid: 5, zxid: 258, error_code: -101, remaining: 3 })
    );
    assert_eq!(decode_header(&bytes[..15]), Err(DecodeError::Short));
    assert_eq!(decode_header(&[]), Err(DecodeError::Short));
    assert_eq!(
        decode_header(&bytes[..16]),
        Ok(ReplyHeader { xid: 5, zxid: 258, error_code: -101, remaining: 0 })
    );
}

#[test]
fn header_round_trip() {
    let bytes = encode_header(-1, i64::MIN, i32::MAX);
    assert_eq!(bytes.len(), 16);
    assert_eq!(
        decode_header(&bytes),
        Ok(ReplyHeader { xid: -1, zxid: i64::MIN, error_code: i32::MAX, remaining: 0 })
    );
}

#[test]
fn exists_body_is_the_stat_record() {
    assert_eq!(decode_body(3, &sample_stat_bytes()), Ok(Response::Exists { stat: sample_stat() }));
    assert_eq!(encode_response(&Response::Exists { stat: sample_stat() }), Ok(sample_stat_bytes()));
}

#[test]
fn body_length_must_match_the_operation() {
    let stat = sample_stat_bytes();
    assert_eq!(decode_body(3, &stat[..67]), Err(DecodeError::Short));
    assert_eq!(decode_body(3, &[]), Err(DecodeError::Short));
    let mut long = stat.clone();
    long.push(0);
    assert_eq!(decode_body(3, &long), Err(DecodeError::Malformed));
    assert_eq!(decode_body(11, &[]), Ok(Response::Ping));
    assert_eq!(decode_body(11, &[0]), Err(DecodeError::Malformed));
}

#[test]
fn unknown_opcode_is_refused() {
    assert_eq!(decode_body(0, &[]), Err(DecodeError::UnknownOpcode));
    assert_eq!(decode_body(4, &sample_stat_bytes()), Err(DecodeError::UnknownOpcode));
    assert_eq!(decode_body(-1, &[1, 2]), Err(DecodeError::UnknownOpcode));
    assert_eq!(
        decode_request(&[0, 0, 0, 1, 0, 0, 0, 99]),
        Err(DecodeError::UnknownOpcode)
    );
}

#[test]
fn opcodes_have_their_numbers() {
    assert_eq!(OpCode::Exists.code(), 3);
    assert_eq!(OpCode::Ping.code(), 11);
    assert_eq!(OpCode::from_code(3), Some(OpCode::Exists));
    assert_eq!(OpCode::from_code(11), Some(OpCode::Ping));
    assert_eq!(OpCode::from_code(0), None);
    assert_eq!(OpCode::from_code(-11), None);
}

#[test]
fn handshake_answer_has_a_fixed_layout() {
    let bytes = vec![
        0, 0, 0, 0, 0, 0, 0x9c, 0x40, 0, 0, 0, 0, 0, 0, 0, 42, 0, 0, 0, 2, 0xab, 0xcd, 0,
    ];
    assert_eq!(
        decode_connect_response(&bytes),
        Ok(Response::Connect {
            protocol_version: 0,
            timeout: 40000,
            session_id: 42,
            passwd: vec![0xab, 0xcd],
            read_only: false,
        })
    );
    assert_eq!(decode_connect_response(&bytes[..15]), Err(DecodeError::Short));
    assert_eq!(decode_connect_response(&bytes[..18]), Err(DecodeError::Short));
    assert_eq!(decode_connect_response(&bytes[..21]), Err(DecodeError::Short));
    assert_eq!(decode_connect_response(&bytes[..22]), Err(DecodeError::Short));
    let mut long = bytes.clone();
    long.push(0);
    assert_eq!(decode_connect_response(&long), Err(DecodeError::Malformed));
    let mut bad_flag = bytes.clone();
    bad_flag[22] = 7;
    assert_eq!(decode_connect_response(&bad_flag), Err(DecodeError::Malformed));
}

#[test]
fn handshake_answer_without_password() {
    let bytes = vec![0, 0, 0, 0, 0, 0, 0, 1, 0, 0, 0, 0, 0, 0, 0, 0, 0xff, 0xff, 0xff, 0xff, 1];
    assert_eq!(
        decode_connect_response(&bytes),
        Ok(Response::Connect {
            protocol_version: 0,
            timeout: 1,
            session_id: 0,
            passwd: vec![],
            read_only: true,
        })
    );
}

#[test]
fn event_is_kind_state_path() {
    let bytes = vec![0, 0, 0, 2, 0, 0, 0, 3, 0, 0, 0, 2, b'/', b'a'];
    assert_eq!(
        decode_event(&bytes),
        Ok(WatchedEvent { kind: EventKind::NodeDeleted, state: 3, path: "/a".to_string() })
    );
    assert_eq!(decode_event(&bytes[..7]), Err(DecodeError::Short));
    assert_eq!(decode_event(&bytes[..13]), Err(DecodeError::Short));
    let mut unknown_kind = bytes.clone();
    unknown_kind[3] = 9;
    assert_eq!(decode_event(&unknown_kind), Err(DecodeError::Malformed));
    let mut trailing = bytes.clone();
    trailing.push(0);
    assert_eq!(decode_event(&trailing), Err(DecodeError::Malformed));
    let bad_utf8 = vec![0, 0, 0, 2, 0, 0, 0, 3, 0, 0, 0, 1, 0x80];
    assert_eq!(decode_event(&bad_utf8), Err(DecodeError::Malformed));
}

#[test]
fn event_round_trip() {
    for kind in [
        EventKind::Session,
        EventKind::NodeCreated,
        EventKind::NodeDeleted,
        EventKind::NodeDataChanged,
        EventKind::NodeChildrenChanged,
    ] {
        let ev = WatchedEvent { kind, state: -112, path: "/näme/x".to_string() };
        let bytes = encode_event(&ev).unwrap();
        assert_eq!(decode_event(&bytes), Ok(ev));
    }
}

#[test]
fn request_round_trip() {
    let ping = Request::Ping;
    let bytes = encode(&ping, -2).unwrap();
    assert_eq!(decode_request(&bytes[4..]), Ok((-2, Request::Ping)));

    let exists = Request::Exists { path: "/a/b".to_string(), watch: true };
    let bytes = encode(&exists, i32::MAX).unwrap();
    assert_eq!(decode_request(&bytes[4..]), Ok((i32::MAX, exists)));

    let connect = Request::Connect {
        protocol_version: 0,
        last_zxid_seen: 77,
        timeout: 6000,
        session_id: -5,
        passwd: vec![1; 16],
        read_only: false,
    };
    let bytes = encode(&connect, 0).unwrap();
    assert_eq!(decode_connect_request(&bytes[4..]), Ok(connect));
}

#[test]
fn request_with_bytes_left_over_is_malformed() {
    let exists = Request::Exists { path: "/a".to_string(), watch: false };
    let mut bytes = encode(&exists, 3).unwrap();
    bytes.push(0);
    assert_eq!(decode_request(&bytes[4..]), Err(DecodeError::Malformed));
    let mut ping = encode(&Request::Ping, -2).unwrap();
    ping.push(0);
    assert_eq!(decode_request(&ping[4..]), Err(DecodeError::Malformed));
    assert_eq!(decode_request(&ping[4..11]), Err(DecodeError::Short));
    assert_eq!(decode_connect_request(&[0; 23]), Err(DecodeError::Short));
}

#[test]
fn response_round_trip() {
    let connect = Response::Connect {
        protocol_version: 0,
        timeout: 30000,
        session_id: 0x7fff_ffff_ffff_ffff,
        passwd: vec![3, 1, 4, 1, 5],
        read_only: true,
    };
    let bytes = encode_response(&connect).unwrap();
    assert_eq!(decode_connect_response(&bytes), Ok(connect));

    let exists = Response::Exists { stat: sample_stat() };
    let bytes = encode_response(&exists).unwrap();
    assert_eq!(decode_body(OpCode::Exists.code(), &bytes), Ok(exists));

    let bytes = encode_response(&Response::Ping).unwrap();
    assert_eq!(bytes, Vec::<u8>::new());
    assert_eq!(decode_body(OpCode::Ping.code(), &bytes), Ok(Response::Ping));
}

#[test]
fn stat_with_negative_fields_round_trips() {
    let stat = Stat {
        czxid: -1,
        mzxid: i64::MIN,
        ctime: i64::MAX,
        mtime: 0,
        version: -1,
        cversion: i32::MIN,
        aversion: i32::MAX,
        ephemeral_owner: -2,
        data_length: 0,
        num_children: 1,
        pzxid: 0x0123_4567_89ab_cdef,
    };
    let bytes = encode_response(&Response::Exists { stat }).unwrap();
    assert_eq!(bytes.len(), 68);
    assert_eq!(decode_body(3, &bytes), Ok(Response::Exists { stat }));
}

#[test]
fn frame_puts_the_length_first() {
    assert_eq!(frame_payload(&vec![]), vec![0, 0, 0, 0]);
    assert_eq!(frame_payload(&vec![7, 8, 9]), vec![0, 0, 0, 3, 7, 8, 9]);
    let long = vec![1u8; 300];
    let framed = frame_payload(&long);
    assert_eq!(&framed[..4], &[0, 0, 1, 0x2c]);
    assert_eq!(&framed[4..], &long[..]);
}

#[test]
fn a_partial_record_is_not_a_record() {
    let framed = frame_payload(&vec![7, 8, 9]);
    for n in 0..framed.len() {
        assert_eq!(next_record(&framed[..n]), Ok(None));
    }
    assert_eq!(next_record(&framed), Ok(Some(7)));
    let mut two = framed.clone();
    two.extend(frame_payload(&vec![1]));
    assert_eq!(next_record(&two), Ok(Some(7)));
    assert_eq!(next_record(&two[7..]), Ok(Some(5)));
    assert_eq!(next_record(&[0, 0, 0, 0]), Ok(Some(4)));
}

#[test]
fn a_negative_record_length_is_malformed() {
    assert_eq!(next_record(&[0xff, 0xff, 0xff, 0xff]), Err(DecodeError::Malformed));
    assert_eq!(next_record(&[0x80, 0, 0, 0, 1, 2]), Err(DecodeError::Malformed));
}

#[test]
fn error_codes_have_their_names() {
    assert_eq!(ZkError::from_code(-101), ZkError::NoNode);
    assert_eq!(ZkError::from_code(-110), ZkError::NodeExists);
    assert_eq!(ZkError::from_code(-103), ZkError::BadVersion);
    assert_eq!(ZkError::from_code(-102), ZkError::NoAuth);
    assert_eq!(ZkError::from_code(-112), ZkError::SessionExpired);
    assert_eq!(ZkError::from_code(-4), ZkError::ConnectionLoss);
    assert_eq!(ZkError::from_code(-999), ZkError::Other(-999));
    assert_eq!(ZkError::from_code(17), ZkError::Other(17));
    assert_eq!(ZkError::NoNode.code(), -101);
    assert_eq!(ZkError::Other(5).code(), 5);
}

#[test]
fn every_error_code_maps_back_to_itself() {
    for code in -200..200 {
        assert_eq!(ZkError::from_code(code).code(), code);
    }
    for e in [
        ZkError::SystemError,
        ZkError::RuntimeInconsistency,
        ZkError::DataInconsistency,
        ZkError::ConnectionLoss,
        ZkError::MarshallingError,
        ZkError::Unimplemented,
        ZkError::OperationTimeout,
        ZkError::BadArguments,
        ZkError::ApiError,
        ZkError::NoNode,
        ZkError::NoAuth,
        ZkError::BadVersion,
        ZkError::NoChildrenForEphemerals,
        ZkError::NodeExists,
        ZkError::NotEmpty,
        ZkError::SessionExpired,
        ZkError::InvalidCallback,
        ZkError::InvalidAcl,
        ZkError::AuthFailed,
    ] {
        assert_eq!(ZkError::from_code(e.code()), e);
    }
}

#[test]
fn event_kinds_have_their_numbers() {
    assert_eq!(EventKind::from_code(-1), Some(EventKind::Session));
    assert_eq!(EventKind::from_code(1), Some(EventKind::NodeCreated));
    assert_eq!(EventKind::from_code(2), Some(EventKind::NodeDeleted));
    assert_eq!(EventKind::from_code(3), Some(EventKind::NodeDataChanged));
    assert_eq!(EventKind::from_code(4), Some(EventKind::NodeChildrenChanged));
    assert_eq!(EventKind::from_code(0), None);
    assert_eq!(EventKind::from_code(5), None);
    assert_eq!(EventKind::NodeChildrenChanged.code(), 4);
    assert_eq!(EventKind::Session.code(), -1);
}

#[test]
fn a_record_longer_than_its_length_field_is_refused() {
    let fits = Request::Connect {
        protocol_version: 0,
        last_zxid_seen: 0,
        timeout: 0,
        session_id: 0,
        passwd: vec![0u8; 100],
        read_only: false,
    };
    assert_eq!(encode(&fits, 0).map(|bytes| bytes.len()), Ok(133));
    let too_long = Request::Connect {
        protocol_version: 0,
        last_zxid_seen: 0,
        timeout: 0,
        session_id: 0,
        passwd: vec![0u8; 0x7fff_ffff - 28],
        read_only: false,
    };
    assert_eq!(encode(&too_long, 0), Err(EncodeError::TooLarge));
    drop(too_long);
    let answer = Response::Connect {
        protocol_version: 0,
        timeout: 0,
        session_id: 0,
        passwd: vec![0u8; 0x7fff_ffff - 20],
        read_only: false,
    };
    assert_eq!(encode_response(&answer), Err(EncodeError::TooLarge));
}

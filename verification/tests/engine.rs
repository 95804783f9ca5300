use zk_client::codec::{encode, encode_event, encode_header, encode_response};
use zk_client::packetizer::MAX_OUTSTANDING;
use zk_client::session::MAX_PASSWD;
use zk_client::{
    ClientError, Completion, DecodeError, EnqueueError, EventKind, Failure, Handshake, Packetizer,
    Request, Response, Routed, SessionManager, SessionState, Stat, Tick, WatchedEvent, ZkError,
    ZooKeeper,
};

fn stat(version: i32) -> Stat {
    Stat {
        czxid: 10,
        mzxid: 11,
        ctime: 1000,
        mtime: 2000,
        version,
        cversion: 0,
        aversion: 0,
        ephemeral_owner: 0,
        data_length: 5,
        num_children: 0,
        pzxid: 10,
    }
}

fn granted(session_id: i64, timeout: i32) -> Vec<u8> {
    encode_response(&Response::Connect {
        protocol_version: 0,
        timeout,
        session_id,
        passwd: vec![1, 2, 3, 4],
        read_only: false,
    })
    .unwrap()
}

fn reply(xid: i32, zxid: i64, error_code: i32, body: &[u8]) -> Vec<u8> {
    let mut record = encode_header(xid, zxid, error_code);
    record.extend_from_slice(body);
    record
}

fn ask(path: &str, watch: bool) -> Request {
    Request::Exists { path: path.to_string(), watch }
}

fn established(timeout: i32, limit: usize) -> Packetizer {
    let mut p = Packetizer::new(0, limit);
    assert!(p.connect());
    p.socket_connected(0);
    assert!(p.next_frame().is_some());
    assert_eq!(p.on_record(&granted(0x55, timeout), 0), Routed::Established);
    assert_eq!(p.state(), SessionState::Established);
    p
}

#[test]
fn it_works() {
    let mut zk = ZooKeeper::connect();
    assert_eq!(zk.connection.state(), SessionState::Connecting);
    let hello = zk.handshake(0).unwrap();
    let mut expected = vec![0u8, 0, 0, 29];
    expected.extend(vec![0u8; 29]);
    assert_eq!(hello, expected);
    assert_eq!(zk.connection.on_record(&granted(7, 4000), 1), Routed::Established);

    let xid = zk.node_exists("/foo").unwrap();
    assert_eq!(xid, 1);
    let written = zk.connection.next_frame().unwrap();
    assert_eq!(written, encode(&ask("/foo", false), 1).unwrap());
    let routed = zk.connection.on_record(&reply(xid, 12, -101, &[]), 2);
    match routed {
        Routed::Completed(c) => {
            assert_eq!(c.xid, xid);
            assert_eq!(ZooKeeper::exists_result(c.outcome), Ok(None));
        }
        other => panic!("unexpected {:?}", other),
    }
}

#[test]
fn handshake_then_missing_and_present_nodes() {
    let mut zk = ZooKeeper::connect();
    let hello = zk.handshake(0).unwrap();
    assert_eq!(hello.len(), 33);
    assert_eq!(zk.connection.state(), SessionState::Handshaking);
    assert_eq!(zk.connection.on_record(&granted(0x1234, 30000), 5), Routed::Established);
    assert_eq!(zk.connection.session().session_id(), 0x1234);
    assert_eq!(zk.connection.session().timeout(), 30000);
    assert_eq!(zk.connection.session().passwd(), &vec![1, 2, 3, 4]);

    let missing = zk.node_exists("/missing").unwrap();
    let present = zk.node_exists("/present").unwrap();
    assert_eq!((missing, present), (1, 2));
    assert_eq!(zk.connection.next_frame(), Some(encode(&ask("/missing", false), 1).unwrap()));
    assert_eq!(zk.connection.next_frame(), Some(encode(&ask("/present", false), 2).unwrap()));
    assert_eq!(zk.connection.next_frame(), None);

    let first = zk.connection.on_record(&reply(1, 20, -101, &[]), 6);
    assert_eq!(
        first,
        Routed::Completed(Completion { xid: 1, outcome: Err(Failure::Server(ZkError::NoNode)) })
    );
    let body = encode_response(&Response::Exists { stat: stat(3) }).unwrap();
    let second = zk.connection.on_record(&reply(2, 21, 0, &body), 7);
    match second {
        Routed::Completed(c) => {
            assert_eq!(c.xid, 2);
            assert_eq!(ZooKeeper::exists_result(c.outcome), Ok(Some(stat(3))));
        }
        other => panic!("unexpected {:?}", other),
    }
    assert_eq!(zk.connection.outstanding(), 0);
    assert_eq!(zk.connection.session().last_zxid(), 21);
}

#[test]
fn exists_result_maps_each_outcome() {
    assert_eq!(
        ZooKeeper::exists_result(Ok(Response::Exists { stat: stat(1) })),
        Ok(Some(stat(1)))
    );
    assert_eq!(ZooKeeper::exists_result(Err(Failure::Server(ZkError::NoNode))), Ok(None));
    assert_eq!(
        ZooKeeper::exists_result(Err(Failure::Server(ZkError::NoAuth))),
        Err(ClientError::Failed(Failure::Server(ZkError::NoAuth)))
    );
    assert_eq!(
        ZooKeeper::exists_result(Err(Failure::ConnectionLost)),
        Err(ClientError::Failed(Failure::ConnectionLost))
    );
    assert_eq!(
        ZooKeeper::exists_result(Err(Failure::SessionOver)),
        Err(ClientError::Failed(Failure::SessionOver))
    );
    assert_eq!(ZooKeeper::exists_result(Ok(Response::Ping)), Err(ClientError::UnexpectedVariant));
    assert_eq!(
        ZooKeeper::exists_result(Ok(Response::Connect {
            protocol_version: 0,
            timeout: 1,
            session_id: 1,
            passwd: vec![],
            read_only: false,
        })),
        Err(ClientError::UnexpectedVariant)
    );
}

#[test]
fn same_exists_twice_gives_equal_results() {
    let mut p = established(3000, 10);
    let a = p.enqueue(ask("/n", false)).unwrap();
    let b = p.enqueue(ask("/n", false)).unwrap();
    assert_ne!(a, b);
    let fa = p.next_frame().unwrap();
    let fb = p.next_frame().unwrap();
    assert_eq!(fa[8..], fb[8..]);
    assert_eq!(p.armed(), 0);
    let body = encode_response(&Response::Exists { stat: stat(2) }).unwrap();
    let ra = match p.on_record(&reply(a, 5, 0, &body), 1) {
        Routed::Completed(c) => ZooKeeper::exists_result(c.outcome),
        other => panic!("unexpected {:?}", other),
    };
    let rb = match p.on_record(&reply(b, 5, 0, &body), 2) {
        Routed::Completed(c) => ZooKeeper::exists_result(c.outcome),
        other => panic!("unexpected {:?}", other),
    };
    assert_eq!(ra, rb);
    assert_eq!(ra, Ok(Some(stat(2))));
    assert_eq!(p.state(), SessionState::Established);
    assert_eq!(p.session().session_id(), 0x55);
}

#[test]
fn session_walks_through_its_states() {
    let mut s = SessionManager::new(0);
    assert_eq!(s.state(), SessionState::Disconnected);
    assert_eq!(s.socket_connected(), None);
    assert!(!s.connection_lost());
    assert_eq!(s.state(), SessionState::Disconnected);
    assert!(s.connect());
    assert!(!s.connect());
    assert_eq!(s.state(), SessionState::Connecting);
    let hello = s.socket_connected();
    assert_eq!(
        hello,
        Some(Request::Connect {
            protocol_version: 0,
            last_zxid_seen: 0,
            timeout: 0,
            session_id: 0,
            passwd: vec![],
            read_only: false,
        })
    );
    assert_eq!(s.state(), SessionState::Handshaking);
    let answer = Response::Connect {
        protocol_version: 0,
        timeout: 9000,
        session_id: 77,
        passwd: vec![5; 16],
        read_only: false,
    };
    assert_eq!(s.handshake_reply(answer), Handshake::Established);
    assert_eq!(s.state(), SessionState::Established);
    assert_eq!(s.session_id(), 77);
    assert_eq!(s.timeout(), 9000);
    assert_eq!(s.ping_interval(), 3000);
    s.observe_zxid(40);
    s.observe_zxid(30);
    assert_eq!(s.last_zxid(), 40);
    assert!(s.connection_lost());
    assert_eq!(s.state(), SessionState::Reconnecting);
    assert!(!s.connection_lost());
    assert_eq!(s.state(), SessionState::Reconnecting);
    assert_eq!(
        s.socket_connected(),
        Some(Request::Connect {
            protocol_version: 0,
            last_zxid_seen: 40,
            timeout: 9000,
            session_id: 77,
            passwd: vec![5; 16],
            read_only: false,
        })
    );
    assert_eq!(s.state(), SessionState::Handshaking);
}

#[test]
fn session_id_zero_means_expired() {
    let mut s = SessionManager::new(4000);
    s.connect();
    s.socket_connected();
    let answer = Response::Connect {
        protocol_version: 0,
        timeout: 4000,
        session_id: 0,
        passwd: vec![],
        read_only: false,
    };
    assert_eq!(s.handshake_reply(answer), Handshake::Expired);
    assert_eq!(s.state(), SessionState::Expired);
    assert!(s.is_terminal());
    assert!(!s.connect());
    assert_eq!(s.socket_connected(), None);
    assert!(!s.connection_lost());
    s.close();
    assert_eq!(s.state(), SessionState::Expired);
}

#[test]
fn unusable_handshake_answers_are_rejected() {
    let answer = |timeout: i32, passwd: Vec<u8>| Response::Connect {
        protocol_version: 0,
        timeout,
        session_id: 9,
        passwd,
        read_only: false,
    };
    for bad in [answer(0, vec![]), Response::Ping] {
        let mut s = SessionManager::new(0);
        s.connect();
        s.socket_connected();
        assert_eq!(s.handshake_reply(bad), Handshake::Rejected);
        assert_eq!(s.state(), SessionState::Reconnecting);
        assert_eq!(s.session_id(), 0);
    }
    let mut s = SessionManager::new(0);
    assert_eq!(s.handshake_reply(answer(5, vec![])), Handshake::Ignored);
    assert_eq!(s.state(), SessionState::Disconnected);
    assert_eq!(MAX_PASSWD, 0x7fff_ffff - 29);
}

#[test]
fn failed_first_attempt_leaves_the_session_disconnected() {
    let mut s = SessionManager::new(0);
    s.connect();
    assert!(!s.connection_lost());
    assert_eq!(s.state(), SessionState::Disconnected);
    assert!(s.connect());
}

#[test]
fn close_is_final() {
    let mut s = SessionManager::new(0);
    s.connect();
    s.close();
    assert_eq!(s.state(), SessionState::Closed);
    assert!(s.is_terminal());
    assert!(!s.connect());
    assert_eq!(s.socket_connected(), None);
    s.observe_zxid(5);
    assert_eq!(s.state(), SessionState::Closed);
}

#[test]
fn ping_interval_is_a_third_of_the_timeout() {
    assert_eq!(SessionManager::new(0).ping_interval(), 0);
    assert_eq!(SessionManager::new(-9).ping_interval(), 0);
    assert_eq!(SessionManager::new(1).ping_interval(), 0);
    assert_eq!(SessionManager::new(3).ping_interval(), 1);
    assert_eq!(SessionManager::new(10000).ping_interval(), 3333);
    assert_eq!(SessionManager::new(i32::MAX).ping_interval(), 715827882);
}

#[test]
fn xids_increase_and_skip_none() {
    let mut p = established(3000, 100);
    let mut last = 0;
    for i in 0..20 {
        let xid = p.enqueue(ask("/x", false)).unwrap();
        assert_eq!(xid, i + 1);
        assert!(xid > last);
        last = xid;
    }
    assert_eq!(p.outstanding(), 20);
    assert_eq!(p.queued(), 20);
}

#[test]
fn requests_are_written_in_submission_order() {
    let mut p = established(3000, 100);
    let paths = ["/a", "/b", "/c", "/d"];
    for path in paths {
        p.enqueue(ask(path, false)).unwrap();
    }
    for (i, path) in paths.iter().enumerate() {
        let expected = encode(&ask(path, false), i as i32 + 1).unwrap();
        assert_eq!(p.next_frame(), Some(expected));
    }
    assert_eq!(p.next_frame(), None);
}

#[test]
fn an_answered_xid_is_not_reused_before_the_counter_wraps() {
    let mut p = established(3000, 100);
    assert_eq!(p.enqueue(ask("/a", false)), Ok(1));
    assert_eq!(p.enqueue(ask("/b", false)), Ok(2));
    assert_eq!(
        p.on_record(&reply(1, 1, -101, &[]), 1),
        Routed::Completed(Completion { xid: 1, outcome: Err(Failure::Server(ZkError::NoNode)) })
    );
    assert_eq!(p.enqueue(ask("/c", false)), Ok(3));
    assert_eq!(p.outstanding(), 2);
}

#[test]
fn enqueue_refuses_reserved_requests() {
    let mut p = established(3000, 100);
    assert_eq!(p.enqueue(Request::Ping), Err(EnqueueError::Reserved));
    let connect = Request::Connect {
        protocol_version: 0,
        last_zxid_seen: 0,
        timeout: 0,
        session_id: 0,
        passwd: vec![],
        read_only: false,
    };
    assert_eq!(p.enqueue(connect), Err(EnqueueError::Reserved));
    assert_eq!(p.outstanding(), 0);
    assert_eq!(p.queued(), 0);
}

#[test]
fn enqueue_refuses_beyond_the_limit_of_outstanding_requests() {
    let mut p = established(3000, 2);
    assert_eq!(p.enqueue(ask("/a", false)), Ok(1));
    assert_eq!(p.enqueue(ask("/b", false)), Ok(2));
    assert_eq!(p.enqueue(ask("/c", false)), Err(EnqueueError::TooManyOutstanding));
    assert_eq!(p.outstanding(), 2);
    p.on_record(&reply(1, 1, -101, &[]), 1);
    assert_eq!(p.enqueue(ask("/c", false)), Ok(3));
    let mut none = Packetizer::new(0, 0);
    assert_eq!(none.enqueue(ask("/a", false)), Err(EnqueueError::TooManyOutstanding));
    assert_eq!(MAX_OUTSTANDING, 0x7fff_fffe);
}

#[test]
fn enqueue_fails_once_the_session_is_over() {
    let mut closed = established(3000, 10);
    closed.enqueue(ask("/a", false)).unwrap();
    closed.enqueue(ask("/b", true)).unwrap();
    assert_eq!(
        closed.close(),
        vec![
            Completion { xid: 1, outcome: Err(Failure::SessionOver) },
            Completion { xid: 2, outcome: Err(Failure::SessionOver) },
        ]
    );
    assert_eq!(closed.state(), SessionState::Closed);
    assert_eq!(closed.enqueue(ask("/a", false)), Err(EnqueueError::SessionOver));
    assert_eq!(closed.enqueue(Request::Ping), Err(EnqueueError::SessionOver));
    assert_eq!(closed.next_frame(), None);
    assert_eq!(closed.armed(), 0);
    assert_eq!(closed.close(), vec![]);

    let mut expired = Packetizer::new(0, 10);
    expired.connect();
    expired.enqueue(ask("/early", false)).unwrap();
    expired.socket_connected(0);
    expired.next_frame();
    assert_eq!(
        expired.on_record(&granted(0, 3000), 1),
        Routed::Expired(vec![Completion { xid: 1, outcome: Err(Failure::SessionOver) }])
    );
    assert_eq!(expired.state(), SessionState::Expired);
    assert_eq!(expired.enqueue(ask("/a", false)), Err(EnqueueError::SessionOver));
    assert_eq!(expired.on_record(&granted(5, 3000), 2), Routed::Ignored);
}

#[test]
fn requests_wait_until_the_session_is_established() {
    let mut p = Packetizer::new(0, 10);
    assert_eq!(p.enqueue(ask("/early", false)), Ok(1));
    assert_eq!(p.next_frame(), None);
    p.connect();
    assert_eq!(p.next_frame(), None);
    p.socket_connected(0);
    let hello = p.next_frame().unwrap();
    assert_eq!(hello.len(), 33);
    assert_eq!(p.next_frame(), None);
    assert_eq!(p.on_record(&granted(3, 3000), 0), Routed::Established);
    assert_eq!(p.next_frame(), Some(encode(&ask("/early", false), 1).unwrap()));
}

#[test]
fn connection_loss_fails_every_outstanding_request_once() {
    let mut p = established(3000, 10);
    for path in ["/a", "/b", "/c"] {
        p.enqueue(ask(path, true)).unwrap();
    }
    p.next_frame();
    let failed = p.connection_lost();
    assert_eq!(
        failed,
        vec![
            Completion { xid: 1, outcome: Err(Failure::ConnectionLost) },
            Completion { xid: 2, outcome: Err(Failure::ConnectionLost) },
            Completion { xid: 3, outcome: Err(Failure::ConnectionLost) },
        ]
    );
    assert_eq!(p.state(), SessionState::Reconnecting);
    assert_eq!(p.outstanding(), 0);
    assert_eq!(p.queued(), 0);
    assert_eq!(p.armed(), 0);
    assert_eq!(p.connection_lost(), vec![]);
    assert_eq!(p.on_record(&reply(1, 9, 0, &[]), 5), Routed::Ignored);

    p.socket_connected(6);
    p.next_frame();
    assert_eq!(p.on_record(&granted(0x55, 3000), 7), Routed::Established);
    assert_eq!(p.on_record(&reply(1, 9, -101, &[]), 8), Routed::Unmatched(1));
    assert_eq!(p.on_record(&reply(2, 9, -101, &[]), 8), Routed::Unmatched(2));
    assert_eq!(p.outstanding(), 0);
}

#[test]
fn after_a_socket_error_the_handshake_resumes_the_session_first() {
    let mut p = established(3000, 10);
    let body = encode_response(&Response::Exists { stat: stat(1) }).unwrap();
    p.enqueue(ask("/a", false)).unwrap();
    p.next_frame();
    p.on_record(&reply(1, 88, 0, &body), 1);
    p.enqueue(ask("/b", false)).unwrap();

    p.connection_lost();
    assert_eq!(p.state(), SessionState::Reconnecting);
    assert_eq!(p.next_frame(), None);
    let later = p.enqueue(ask("/later", false)).unwrap();
    assert_eq!(p.next_frame(), None);

    p.socket_connected(50);
    assert_eq!(p.state(), SessionState::Handshaking);
    let resume = Request::Connect {
        protocol_version: 0,
        last_zxid_seen: 88,
        timeout: 3000,
        session_id: 0x55,
        passwd: vec![1, 2, 3, 4],
        read_only: false,
    };
    assert_eq!(p.next_frame(), Some(encode(&resume, 0).unwrap()));
    assert_eq!(p.next_frame(), None);
    assert_eq!(p.on_record(&granted(0x55, 3000), 51), Routed::Established);
    assert_eq!(p.next_frame(), Some(encode(&ask("/later", false), later).unwrap()));
}

#[test]
fn undecodable_records_cost_the_connection() {
    let cases: Vec<(Vec<u8>, DecodeError)> = vec![
        (vec![0, 0, 0], DecodeError::Short),
        (reply(1, 1, 0, &[0; 67]), DecodeError::Short),
        (reply(1, 1, 0, &[0; 69]), DecodeError::Malformed),
        (reply(1, 1, -101, &[0]), DecodeError::Malformed),
        (reply(-2, 1, 0, &[0]), DecodeError::Malformed),
        (reply(-1, 1, 0, &[0, 0, 0, 9, 0, 0, 0, 3, 0, 0, 0, 0]), DecodeError::Malformed),
        (reply(-1, 1, 0, &[0, 0, 0, 1]), DecodeError::Short),
    ];
    for (record, error) in cases {
        let mut p = established(3000, 10);
        p.enqueue(ask("/a", true)).unwrap();
        let routed = p.on_record(&record, 1);
        assert_eq!(
            routed,
            Routed::Lost {
                error,
                completions: vec![Completion { xid: 1, outcome: Err(Failure::ConnectionLost) }],
            }
        );
        assert_eq!(p.state(), SessionState::Reconnecting);
        assert_eq!(p.outstanding(), 0);
        assert_eq!(p.armed(), 0);
    }
}

#[test]
fn a_broken_handshake_answer_costs_the_connection() {
    let mut p = Packetizer::new(0, 10);
    p.connect();
    p.socket_connected(0);
    assert_eq!(
        p.on_record(&[0, 0, 0, 0], 1),
        Routed::Lost { error: DecodeError::Short, completions: vec![] }
    );
    assert_eq!(p.state(), SessionState::Reconnecting);
    assert_eq!(p.next_frame(), None);

    p.socket_connected(2);
    assert_eq!(
        p.on_record(&granted(5, 0), 3),
        Routed::Lost { error: DecodeError::Malformed, completions: vec![] }
    );
    assert_eq!(p.state(), SessionState::Reconnecting);
}

#[test]
fn server_errors_reach_the_caller_unchanged() {
    let mut p = established(3000, 10);
    for (i, (code, error)) in [
        (-110, ZkError::NodeExists),
        (-103, ZkError::BadVersion),
        (-102, ZkError::NoAuth),
        (-112, ZkError::SessionExpired),
        (-777, ZkError::Other(-777)),
    ]
    .into_iter()
    .enumerate()
    {
        let xid = p.enqueue(ask("/a", false)).unwrap();
        assert_eq!(xid, i as i32 + 1);
        assert_eq!(
            p.on_record(&reply(xid, 1, code, &[]), 1),
            Routed::Completed(Completion { xid, outcome: Err(Failure::Server(error)) })
        );
    }
    assert_eq!(p.state(), SessionState::Established);
    assert_eq!(p.outstanding(), 0);
}

#[test]
fn a_reply_nobody_waits_for_is_dropped() {
    let mut p = established(3000, 10);
    p.enqueue(ask("/a", false)).unwrap();
    assert_eq!(p.on_record(&reply(9, 30, 0, &[1, 2, 3]), 1), Routed::Unmatched(9));
    assert_eq!(p.outstanding(), 1);
    assert_eq!(p.state(), SessionState::Established);
    assert_eq!(p.session().last_zxid(), 30);
}

#[test]
fn watch_event_goes_to_the_request_that_armed_it() {
    let mut p = established(3000, 10);
    let plain = p.enqueue(ask("/w", false)).unwrap();
    let watched = p.enqueue(ask("/w", true)).unwrap();
    assert_eq!((plain, watched), (1, 2));
    assert_eq!(p.armed(), 1);
    let ev = WatchedEvent { kind: EventKind::NodeCreated, state: 3, path: "/w".to_string() };
    let record = reply(-1, -1, 0, &encode_event(&ev).unwrap());
    assert_eq!(
        p.on_record(&record, 1),
        Routed::Event { event: ev.clone(), sinks: vec![2] }
    );
    assert_eq!(p.armed(), 0);
    assert_eq!(p.on_record(&record, 2), Routed::Event { event: ev, sinks: vec![] });
    assert_eq!(p.outstanding(), 2);
    assert_eq!(p.session().last_zxid(), 0);
}

#[test]
fn event_for_another_path_fires_nothing() {
    let mut p = established(3000, 10);
    p.enqueue(ask("/w", true)).unwrap();
    let ev = WatchedEvent { kind: EventKind::NodeDeleted, state: 3, path: "/other".to_string() };
    let record = reply(-1, -1, 0, &encode_event(&ev).unwrap());
    assert_eq!(p.on_record(&record, 1), Routed::Event { event: ev, sinks: vec![] });
    assert_eq!(p.armed(), 1);
}

#[test]
fn pings_are_due_every_third_of_the_timeout() {
    let mut p = established(3000, 10);
    assert_eq!(p.tick(0), Tick::Idle);
    assert_eq!(p.tick(999), Tick::Idle);
    assert_eq!(p.tick(1000), Tick::Ping);
    assert_eq!(p.next_frame(), Some(vec![0, 0, 0, 8, 0xff, 0xff, 0xff, 0xfe, 0, 0, 0, 11]));
    assert_eq!(p.tick(1000), Tick::Idle);
    assert_eq!(p.on_record(&reply(-2, 4, 0, &[]), 1500), Routed::Pong);
    assert_eq!(p.tick(1999), Tick::Idle);
    assert_eq!(p.tick(2000), Tick::Ping);
    assert_eq!(p.tick(2999), Tick::Idle);
    assert_eq!(p.tick(3000), Tick::Ping);
    assert_eq!(p.queued(), 2);
    assert_eq!(p.outstanding(), 0);
}

#[test]
fn pings_queue_behind_waiting_requests() {
    let mut p = established(3000, 10);
    p.enqueue(ask("/a", false)).unwrap();
    assert_eq!(p.tick(1000), Tick::Ping);
    assert_eq!(p.next_frame(), Some(encode(&ask("/a", false), 1).unwrap()));
    assert_eq!(p.next_frame(), Some(encode(&Request::Ping, -2).unwrap()));
}

#[test]
fn silence_for_a_whole_timeout_is_connection_loss() {
    let mut p = established(3000, 10);
    p.enqueue(ask("/a", false)).unwrap();
    assert_eq!(p.on_record(&reply(-2, 4, 0, &[]), 1000), Routed::Pong);
    assert_eq!(p.tick(3999), Tick::Ping);
    assert_eq!(
        p.tick(4000),
        Tick::Lost(vec![Completion { xid: 1, outcome: Err(Failure::ConnectionLost) }])
    );
    assert_eq!(p.state(), SessionState::Reconnecting);
    assert_eq!(p.tick(99999), Tick::Idle);
}

#[test]
fn a_missed_handshake_is_connection_loss() {
    let mut p = Packetizer::new(2000, 10);
    p.connect();
    assert_eq!(p.tick(5000), Tick::Idle);
    p.socket_connected(5000);
    assert_eq!(p.tick(6999), Tick::Idle);
    assert_eq!(p.tick(7000), Tick::Lost(vec![]));
    assert_eq!(p.state(), SessionState::Reconnecting);

    let mut patient = Packetizer::new(0, 10);
    patient.connect();
    patient.socket_connected(0);
    assert_eq!(patient.tick(u64::MAX), Tick::Idle);
    assert_eq!(patient.state(), SessionState::Handshaking);
}

#[test]
fn a_clock_that_goes_back_counts_as_no_time() {
    let mut p = established(3000, 10);
    assert_eq!(p.on_record(&reply(-2, 4, 0, &[]), 10_000), Routed::Pong);
    assert_eq!(p.tick(10_000), Tick::Ping);
    assert_eq!(p.tick(5), Tick::Idle);
    assert_eq!(p.tick(10_999), Tick::Idle);
    assert_eq!(p.state(), SessionState::Established);
}

#[test]
fn records_are_ignored_where_none_is_expected() {
    let mut p = Packetizer::new(0, 10);
    assert_eq!(p.on_record(&granted(5, 3000), 1), Routed::Ignored);
    p.connect();
    assert_eq!(p.on_record(&granted(5, 3000), 1), Routed::Ignored);
    assert_eq!(p.state(), SessionState::Connecting);
    assert_eq!(p.connection_lost(), vec![]);
    assert_eq!(p.state(), SessionState::Disconnected);
}

#[test]
fn the_limit_of_outstanding_requests_is_capped() {
    let mut p = Packetizer::new(0, usize::MAX);
    assert_eq!(p.enqueue(ask("/a", false)), Ok(1));
    assert_eq!(p.outstanding(), 1);
}

#[test]
fn enqueue_refuses_a_path_that_fits_no_record() {
    let mut p = established(3000, 10);
    let path = String::from_utf8(vec![0u8; 0x7fff_ffff - 12]).unwrap();
    assert_eq!(p.enqueue(Request::Exists { path, watch: true }), Err(EnqueueError::TooLarge));
    assert_eq!(p.outstanding(), 0);
    assert_eq!(p.queued(), 0);
    assert_eq!(p.armed(), 0);
    assert_eq!(p.enqueue(ask("/a", false)), Ok(1));
}

#[test]
fn any_timeout_but_zero_establishes_the_session() {
    for timeout in [-5, -1, i32::MIN, 1, i32::MAX] {
        let mut s = SessionManager::new(0);
        s.connect();
        s.socket_connected();
        let answer = Response::Connect {
            protocol_version: 0,
            timeout,
            session_id: 9,
            passwd: vec![7],
            read_only: false,
        };
        assert_eq!(s.handshake_reply(answer), Handshake::Established);
        assert_eq!(s.state(), SessionState::Established);
        assert_eq!(s.session_id(), 9);
        assert_eq!(s.timeout(), timeout);
        assert_eq!(s.passwd(), &vec![7]);
    }
}

#[test]
fn a_session_granted_with_a_negative_timeout_takes_requests() {
    let mut p = Packetizer::new(0, 10);
    p.connect();
    p.enqueue(ask("/early", false)).unwrap();
    p.socket_connected(0);
    p.next_frame();
    assert_eq!(p.on_record(&granted(9, -5), 1), Routed::Established);
    assert_eq!(p.state(), SessionState::Established);
    assert_eq!(p.session().session_id(), 9);
    assert_eq!(p.session().timeout(), -5);
    assert_eq!(p.session().ping_interval(), 0);
    assert_eq!(p.outstanding(), 1);
    assert_eq!(p.enqueue(ask("/foo", false)), Ok(2));
    assert_eq!(p.next_frame(), Some(encode(&ask("/early", false), 1).unwrap()));
    assert_eq!(p.next_frame(), Some(encode(&ask("/foo", false), 2).unwrap()));
    assert_eq!(
        p.on_record(&reply(2, 3, -101, &[]), 2),
        Routed::Completed(Completion { xid: 2, outcome: Err(Failure::Server(ZkError::NoNode)) })
    );
    p.on_record(&reply(1, 4, -101, &[]), 3);
    assert_eq!(p.tick(u64::MAX), Tick::Ping);
    assert_eq!(p.state(), SessionState::Established);
}

#[test]
fn a_second_event_for_the_same_node_reaches_no_sink() {
    let mut p = established(3000, 10);
    p.enqueue(ask("/w", true)).unwrap();
    p.enqueue(ask("/w", true)).unwrap();
    p.enqueue(ask("/other", true)).unwrap();
    let created = WatchedEvent { kind: EventKind::NodeCreated, state: 3, path: "/w".to_string() };
    let deleted = WatchedEvent { kind: EventKind::NodeDeleted, state: 3, path: "/w".to_string() };
    let first = reply(-1, -1, 0, &encode_event(&created).unwrap());
    let second = reply(-1, -1, 0, &encode_event(&deleted).unwrap());
    assert_eq!(p.on_record(&first, 1), Routed::Event { event: created.clone(), sinks: vec![1, 2] });
    assert_eq!(p.armed(), 1);
    assert_eq!(p.on_record(&first, 2), Routed::Event { event: created, sinks: vec![] });
    assert_eq!(p.on_record(&second, 3), Routed::Event { event: deleted, sinks: vec![] });
    assert_eq!(p.armed(), 1);
    let gone =
        WatchedEvent { kind: EventKind::NodeDeleted, state: 3, path: "/other".to_string() };
    let third = reply(-1, -1, 0, &encode_event(&gone).unwrap());
    assert_eq!(p.on_record(&third, 4), Routed::Event { event: gone, sinks: vec![3] });
    assert_eq!(p.armed(), 0);
}

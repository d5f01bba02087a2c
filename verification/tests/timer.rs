//! Tests of the mock clock and the heartbeat policy driven from it.

use fixr::connection::ConnectionType;
use fixr::connection::FixConnection;
use fixr::test_util::TestFixApplication;
use fixr::test_util::TestFixEnvironment;
use fixr::test_util::TestFixMessage;
use fixr::test_util::TestFixTransport;
use fixr::util;

const SECOND_NS: u64 = 1_000_000_000;

#[test]
fn test_fix_environment() {
    let mut env = TestFixEnvironment::new();
    let id = env.set_timeout(10 * SECOND_NS);
    let fires = env.run_for(20 * SECOND_NS);
    assert_eq!(2, fires[id].1);
}

#[test]
fn cancelled_timer_never_fires() {
    let mut env = TestFixEnvironment::new();
    let a = env.set_timeout(10 * SECOND_NS);
    let b = env.set_timeout(5 * SECOND_NS);
    env.cancel(a);
    let fires = env.run_for(20 * SECOND_NS);
    assert_eq!(0, fires[a].1);
    assert_eq!(4, fires[b].1);
}

#[test]
fn heartbeat_timer_writes_one_heartbeat_per_tick() {
    // A 10-second heartbeat interval over 20 seconds of mock time gives
    // exactly two Heartbeat messages on the wire.
    let mut env = TestFixEnvironment::new();
    let id = env.set_timeout(10 * SECOND_NS);
    let transport = TestFixTransport::new();
    let mut app = TestFixApplication::new();
    let mut fc = FixConnection::new(b"FIX.4.2".to_vec(), transport, ConnectionType::Acceptor);
    fc.connect(&mut app);
    let fires = env.run_for(20 * SECOND_NS);
    let ticks = fires[id].1;
    assert_eq!(2, ticks);
    for _ in 0..ticks {
        fc.send_heartbeat(None);
    }
    let written = fc.transport.written.clone();
    let mut off = 0;
    let mut heartbeats = 0;
    while off < written.len() {
        let mut sink = TestFixMessage::new();
        let n = util::parse_fix_message(&written[off..], &mut sink).unwrap().unwrap();
        assert_eq!(Some(b"0".to_vec()), sink.msg_type);
        assert!(sink.done && sink.last_ok);
        off += n;
        heartbeats += 1;
    }
    assert_eq!(2, heartbeats);
    assert_eq!(2, fc.next_out_seq);
}

#[test]
fn quiet_tick_sends_heartbeat_busy_tick_sends_nothing() {
    let transport = TestFixTransport::new();
    let mut app = TestFixApplication::new();
    let mut fc = FixConnection::new(b"FIX.4.2".to_vec(), transport, ConnectionType::Acceptor);
    fc.connect(&mut app);
    // Bytes went out since the last tick: nothing to do.
    fc.on_timer_tick(true, false, b"probe".to_vec());
    assert!(fc.transport.written.is_empty());
    assert_eq!(0, fc.next_out_seq);
    // A quiet interval: keep the session alive.
    fc.on_timer_tick(false, false, b"probe".to_vec());
    let mut sink = TestFixMessage::new();
    let n = util::parse_fix_message(&fc.transport.written, &mut sink).unwrap().unwrap();
    assert_eq!(fc.transport.written.len(), n);
    assert_eq!(Some(b"0".to_vec()), sink.msg_type);
    assert_eq!(1, fc.next_out_seq);
}

#[test]
fn silent_peer_gets_a_test_request() {
    let transport = TestFixTransport::new();
    let mut app = TestFixApplication::new();
    let mut fc = FixConnection::new(b"FIX.4.2".to_vec(), transport, ConnectionType::Acceptor);
    fc.connect(&mut app);
    fc.on_timer_tick(true, true, b"probe".to_vec());
    let mut sink = TestFixMessage::new();
    let n = util::parse_fix_message(&fc.transport.written, &mut sink).unwrap().unwrap();
    assert_eq!(fc.transport.written.len(), n);
    assert_eq!(Some(b"1".to_vec()), sink.msg_type);
    assert_eq!(&b"probe".to_vec(), sink.tag_values.get(&112).unwrap());
    assert_eq!(1, fc.next_out_seq);
}

//! Tests of the session engine: logon in both roles, routing, sequence
//! numbers, and the error paths.

use fixr::connection::ConnectionType;
use fixr::connection::FixConnection;
use fixr::fix::FixInState;
use fixr::fix::FixMsgType;
use fixr::fix::FixOutState;
use fixr::fix::SessionRequest;
use fixr::fix::SessionRequestType;
use fixr::test_util::TestFixApplication;
use fixr::test_util::TestFixRemote;
use fixr::test_util::TestFixTransport;
use fixr::util;

/// Append a checksum field computed over `prefix` and return the whole
/// frame.
fn framed(prefix: &[u8]) -> Vec<u8> {
    let sum: u32 = prefix.iter().map(|&b| b as u32).sum::<u32>() % 256;
    let mut m = prefix.to_vec();
    m.extend_from_slice(b"10=");
    m.extend_from_slice(format!("{:03}", sum).as_bytes());
    m.push(1);
    m
}

fn acceptor() -> (FixConnection<TestFixTransport>, TestFixApplication) {
    let transport = TestFixTransport::new();
    let mut fix_app = TestFixApplication::new();
    let mut fc = FixConnection::new(b"FIX.4.2".to_vec(), transport, ConnectionType::Acceptor);
    fc.connect(&mut fix_app);
    (fc, fix_app)
}

#[test]
fn test_fix_logon_acceptor() {
    let mut r = TestFixRemote::new();
    let (mut fc, mut fix_app) = acceptor();

    // send logon followed by unknown message
    let my_fix_type = b"TT".to_vec();
    r.fix_message_start(FixMsgType::Logon, false);
    r.tag_value(58, b"Hello");
    r.fix_message_done(Ok(()));
    r.fix_message_start(FixMsgType::Unknown(my_fix_type), false);
    r.tag_value(58, b"Hello");
    r.fix_message_done(Ok(()));
    let wire = r.accept();
    fc.transport.feed(&wire);

    fc.read_fix_message(&mut fix_app);
    // session level message not communicated
    assert_eq!(None, fix_app.message.msg_type);
    assert_eq!(
        Some(SessionRequest::In(SessionRequestType::Logon(None))),
        fix_app.requests.pop()
    );

    fc.read_fix_message(&mut fix_app);
    // application level message communicated
    assert_eq!(Some(b"TT".to_vec()), fix_app.message.msg_type);
    assert_eq!(&b"Hello".to_vec(), fix_app.message.tag_values.get(&58).unwrap());
}

#[test]
fn test_fix_logon_initiator() {
    let mut r = TestFixRemote::new();
    let transport = TestFixTransport::new();
    let mut fix_app = TestFixApplication::new();
    let mut fc = FixConnection::new(b"FIX.4.2".to_vec(), transport, ConnectionType::Initiator);
    fc.connect(&mut fix_app);

    // send logon followed by unknown message
    let my_fix_type = b"TT".to_vec();
    r.fix_message_start(FixMsgType::Logon, false);
    r.tag_value(58, b"Hello");
    r.fix_message_done(Ok(()));
    r.fix_message_start(FixMsgType::Unknown(my_fix_type), false);
    r.tag_value(58, b"Hello");
    r.fix_message_done(Ok(()));
    let wire = r.accept();
    fc.transport.feed(&wire);

    fc.read_fix_message(&mut fix_app);
    // session level message not communicated
    assert_eq!(None, fix_app.message.msg_type);
    assert_eq!(
        Some(SessionRequest::In(SessionRequestType::Logon(None))),
        fix_app.requests.pop()
    );

    fc.read_fix_message(&mut fix_app);
    // application level message communicated
    assert_eq!(Some(b"TT".to_vec()), fix_app.message.msg_type);
    assert_eq!(&b"Hello".to_vec(), fix_app.message.tag_values.get(&58).unwrap());
}

#[test]
fn acceptor_logon_connects() {
    let (mut fc, mut app) = acceptor();
    assert_eq!(FixInState::Logon, fc.in_state);
    fc.transport.feed(b"8=FIX.4.2\x019=12\x0135=A\x0158=Hello\x0110=127\x01");
    fc.read_message(&mut app);
    assert_eq!(
        vec![SessionRequest::In(SessionRequestType::Logon(None))],
        app.requests
    );
    // The application's in-stream received no callbacks.
    assert_eq!(None, app.message.msg_type);
    assert!(app.message.tag_ids.is_empty());
    assert_eq!(FixInState::Connected, fc.in_state);
    assert_eq!(FixOutState::Connected, fc.out_state);
}

#[test]
fn application_passthrough() {
    let (mut fc, mut app) = acceptor();
    fc.transport.feed(b"8=FIX.4.2\x019=12\x0135=A\x0158=Hello\x0110=127\x01");
    fc.read_message(&mut app);
    let m = framed(b"8=FIX.4.2\x019=014\x0135=TT\x0158=Hello\x01");
    fc.transport.feed(&m);
    fc.read_message(&mut app);
    assert_eq!(Some(b"TT".to_vec()), app.message.msg_type);
    assert_eq!(vec![58u32], app.message.tag_ids);
    assert_eq!(&b"Hello".to_vec(), app.message.tag_values.get(&58).unwrap());
    assert!(app.message.done && app.message.last_ok);
}

#[test]
fn checksum_mismatch_disconnects() {
    let (mut fc, mut app) = acceptor();
    let mut m = framed(b"8=FIX.4.2\x019=014\x0135=TT\x0158=Hello\x01");
    let l = m.len();
    m[l - 2] = if m[l - 2] == b'9' { b'0' } else { m[l - 2] + 1 };
    fc.transport.feed(&m);
    fc.read_message(&mut app);
    // The sink saw the message end in failure; the session is dead, and
    // the application was told why.
    assert!(app.message.done && !app.message.last_ok);
    assert_eq!(FixInState::Disconnected, fc.in_state);
    assert_eq!(FixOutState::Disconnected, fc.out_state);
    assert!(app.requests.is_empty());
    assert_eq!(vec!["checksum mismatch".to_string()], app.errors);
}

#[test]
fn incomplete_buffer_leaves_no_state() {
    let (mut fc, mut app) = acceptor();
    let m = framed(b"8=FIX.4.2\x019=014\x0135=TT\x0158=Hello\x01");
    fc.transport.feed(&m[..20]);
    fc.read_message(&mut app);
    assert_eq!(None, app.message.msg_type);
    assert!(!app.message.done);
    assert!(app.requests.is_empty());
    assert_eq!(FixInState::Logon, fc.in_state);
    // The bytes stay buffered; the rest completes the message.
    fc.transport.feed(&m[20..]);
    fc.read_message(&mut app);
    assert_eq!(Some(b"TT".to_vec()), app.message.msg_type);
    assert!(app.message.done && app.message.last_ok);
}

#[test]
fn seq_reset_moves_next_in_seq() {
    let (mut fc, mut app) = acceptor();
    assert_eq!(0, fc.get_expected_incoming_seq());
    let m = framed(b"8=FIX.4.2\x019=011\x0135=4\x0136=77\x01");
    fc.transport.feed(&m);
    fc.read_message(&mut app);
    assert_eq!(77, fc.get_expected_incoming_seq());
    // Not surfaced to the application.
    assert!(app.requests.is_empty());
    assert_eq!(None, app.message.msg_type);
}

#[test]
fn app_messages_increment_next_in_seq() {
    let (mut fc, mut app) = acceptor();
    let m = framed(b"8=FIX.4.2\x019=014\x0135=TT\x0158=Hello\x01");
    fc.transport.feed(&m);
    fc.transport.feed(&m);
    fc.read_message(&mut app);
    assert_eq!(1, fc.get_expected_incoming_seq());
    fc.read_message(&mut app);
    assert_eq!(2, fc.get_expected_incoming_seq());
    fc.force_expected_incoming_seq(9);
    assert_eq!(9, fc.get_expected_incoming_seq());
}

#[test]
fn test_request_surfaces_id_and_heartbeat_echoes_it() {
    let (mut fc, mut app) = acceptor();
    let m = framed(b"8=FIX.4.2\x019=012\x0135=1\x01112=abc\x01");
    fc.transport.feed(&m);
    fc.read_message(&mut app);
    let req = app.requests.pop().unwrap();
    assert_eq!(
        SessionRequest::In(SessionRequestType::TestRequest(Some(b"abc".to_vec()))),
        req
    );
    // Echo it in a heartbeat, as the session policy asks.
    match req {
        SessionRequest::In(SessionRequestType::TestRequest(id)) => fc.send_heartbeat(id),
        _ => unreachable!(),
    }
    let written = fc.transport.written.clone();
    let mut sink = fixr::test_util::TestFixMessage::new();
    let n = util::parse_fix_message(&written, &mut sink).unwrap().unwrap();
    assert_eq!(written.len(), n);
    assert_eq!(Some(b"0".to_vec()), sink.msg_type);
    assert_eq!(&b"abc".to_vec(), sink.tag_values.get(&112).unwrap());
}

#[test]
fn logout_disconnects_both_sides() {
    let (mut fc, mut app) = acceptor();
    fc.transport.feed(b"8=FIX.4.2\x019=12\x0135=A\x0158=Hello\x0110=127\x01");
    fc.read_message(&mut app);
    let m = framed(b"8=FIX.4.2\x019=005\x0135=5\x01");
    fc.transport.feed(&m);
    fc.read_message(&mut app);
    assert_eq!(
        Some(SessionRequest::In(SessionRequestType::Logout(None))),
        app.requests.pop()
    );
    assert_eq!(FixInState::Disconnected, fc.in_state);
    assert_eq!(FixOutState::Disconnected, fc.out_state);
}

#[test]
fn logon_with_wrong_begin_string_disconnects() {
    let transport = TestFixTransport::new();
    let mut app = TestFixApplication::new();
    let mut fc = FixConnection::new(b"FIX.4.4".to_vec(), transport, ConnectionType::Acceptor);
    fc.connect(&mut app);
    fc.transport.feed(b"8=FIX.4.2\x019=12\x0135=A\x0158=Hello\x0110=127\x01");
    fc.read_message(&mut app);
    assert!(app.requests.is_empty());
    assert_eq!(FixInState::Disconnected, fc.in_state);
    assert_eq!(FixOutState::Disconnected, fc.out_state);
}

#[test]
fn initiator_connect_requests_logon_and_sends_it() {
    let transport = TestFixTransport::new();
    let mut app = TestFixApplication::new();
    let mut fc = FixConnection::new(b"FIX.4.2".to_vec(), transport, ConnectionType::Initiator);
    fc.connect(&mut app);
    assert_eq!(FixOutState::Logon, fc.out_state);
    let req = app.requests.pop().unwrap();
    assert_eq!(SessionRequest::Out(SessionRequestType::Logon(None)), req);
    // The application populates the Logon and completes the request.
    fc.fix_message_start(FixMsgType::Logon, false);
    fc.tag_value(58, b"Hello");
    fc.fix_message_done(Ok(()));
    fc.request_done(req);
    assert_eq!(FixOutState::Connected, fc.out_state);
    assert_eq!(1, fc.next_out_seq);
    // What went out is one well-formed Logon.
    let written = fc.transport.written.clone();
    let mut sink = fixr::test_util::TestFixMessage::new();
    let n = util::parse_fix_message(&written, &mut sink).unwrap().unwrap();
    assert_eq!(written.len(), n);
    assert_eq!(Some(b"A".to_vec()), sink.msg_type);
    assert_eq!(&b"Hello".to_vec(), sink.tag_values.get(&58).unwrap());
}

#[test]
fn end_session_requests_logout() {
    let (mut fc, mut app) = acceptor();
    fc.transport.feed(b"8=FIX.4.2\x019=12\x0135=A\x0158=Hello\x0110=127\x01");
    fc.read_message(&mut app);
    fc.end_session(&mut app);
    assert_eq!(
        Some(SessionRequest::In(SessionRequestType::Logout(None))),
        app.requests.pop()
    );
    assert_eq!(FixInState::Disconnected, fc.in_state);
    assert_eq!(FixOutState::Logout, fc.out_state);
    fc.request_done(SessionRequest::In(SessionRequestType::Logout(None)));
    assert_eq!(FixOutState::Disconnected, fc.out_state);
}

#[test]
fn misplaced_header_disconnects() {
    let (mut fc, mut app) = acceptor();
    let m = framed(b"9=014\x018=FIX.4.2\x0135=TT\x0158=Hello\x01");
    fc.transport.feed(&m);
    fc.read_message(&mut app);
    assert_eq!(FixInState::Disconnected, fc.in_state);
    assert_eq!(FixOutState::Disconnected, fc.out_state);
    assert_eq!(None, app.message.msg_type);
    assert!(app.requests.is_empty());
    assert_eq!(vec!["misplaced tag: expected 8 got 9".to_string()], app.errors);
}

#[test]
fn heartbeat_received_is_swallowed() {
    let (mut fc, mut app) = acceptor();
    let m = framed(b"8=FIX.4.2\x019=005\x0135=0\x01");
    fc.transport.feed(&m);
    fc.read_message(&mut app);
    assert!(app.requests.is_empty());
    assert_eq!(None, app.message.msg_type);
    assert_eq!(FixInState::Logon, fc.in_state);
    assert_eq!(0, fc.get_expected_incoming_seq());
}

#[test]
fn out_stream_builds_the_same_frames() {
    let transport = TestFixTransport::new();
    let mut app = TestFixApplication::new();
    let mut fc = FixConnection::new(b"FIX.4.2".to_vec(), transport, ConnectionType::Acceptor);
    fc.connect(&mut app);
    let w = fc.get_out_stream();
    w.fix_message_start(FixMsgType::Heartbeat, false);
    w.fix_message_done(Ok(()));
    let built = w.get_bytes().to_vec();
    let mut direct = fixr::util::FixMessageWriter::new();
    direct.fix_message_start(FixMsgType::Heartbeat, false);
    direct.fix_message_done(Ok(()));
    assert_eq!(direct.get_bytes(), &built[..]);
}

#[test]
fn logon_captures_heartbeat_interval() {
    let (mut fc, mut app) = acceptor();
    assert_eq!(None, fc.heartbeat_interval);
    let m = framed(b"8=FIX.4.2\x019=012\x0135=A\x01108=30\x01");
    fc.transport.feed(&m);
    fc.read_message(&mut app);
    assert_eq!(Some(30), fc.heartbeat_interval);
    assert_eq!(FixInState::Connected, fc.in_state);
}

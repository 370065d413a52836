use log_tailer::session::{
    Session, SessionAction, SessionEvent, SessionState, Termination, KEEPALIVE_PERIOD_SECS,
    MAX_FRAME_BYTES, MAX_MESSAGE_BYTES,
};

fn active_session(address: &str) -> Session {
    let mut s = Session::new(address.to_string());
    s.activate();
    s
}

fn expect_line(action: SessionAction) -> Vec<u8> {
    match action {
        SessionAction::EmitLine(line) => line,
        other => panic!("expected an emitted line, got {other:?}"),
    }
}

#[test]
fn binary_messages_emit_lines_in_order() {
    let mut s = active_session("node0.example.com");
    let inputs: Vec<&[u8]> = vec![b"first", b"second", b"third"];
    let mut lines: Vec<Vec<u8>> = Vec::new();
    for payload in &inputs {
        let act = s.step(SessionEvent::Binary(payload.to_vec()));
        lines.push(expect_line(act));
        assert_eq!(s.state, SessionState::Active);
    }
    assert_eq!(lines, vec![b"first".to_vec(), b"second".to_vec(), b"third".to_vec()]);
    assert_eq!(s.termination, None);
}

#[test]
fn zero_length_binary_emits_empty_line() {
    let mut s = active_session("node0.example.com");
    let act = s.step(SessionEvent::Binary(Vec::new()));
    assert_eq!(expect_line(act), Vec::<u8>::new());
    assert_eq!(s.state, SessionState::Active);
}

#[test]
fn tick_sends_fixed_ping() {
    let mut s = active_session("node0.example.com");
    match s.step(SessionEvent::Tick) {
        SessionAction::SendPing(body) => assert_eq!(body, vec![1u8, 2, 3, 4]),
        other => panic!("expected a ping, got {other:?}"),
    }
    assert_eq!(s.state, SessionState::Active);
}

#[test]
fn remote_close_terminates_cleanly() {
    let mut s = active_session("node0.example.com");
    match s.step(SessionEvent::RemoteClosed) {
        SessionAction::Close => {}
        other => panic!("expected close, got {other:?}"),
    }
    assert_eq!(s.state, SessionState::Closed);
    assert_eq!(s.termination, Some(Termination::CleanClose));
}

#[test]
fn read_error_terminates_with_error() {
    let mut s = active_session("node0.example.com");
    s.step(SessionEvent::ReadError);
    assert_eq!(s.state, SessionState::Closed);
    assert_eq!(s.termination, Some(Termination::ReadFailed));
}

#[test]
fn ping_send_error_terminates_with_error() {
    let mut s = active_session("node0.example.com");
    s.step(SessionEvent::PingSendError);
    assert_eq!(s.state, SessionState::Closed);
    assert_eq!(s.termination, Some(Termination::SendFailed));
}

#[test]
fn undecodable_payload_is_dropped_and_loop_continues() {
    let mut s = active_session("node0.example.com");
    match s.step(SessionEvent::Binary(vec![0xff])) {
        SessionAction::DropPayload(failure) => assert_eq!(failure.length, 1),
        other => panic!("expected a dropped payload, got {other:?}"),
    }
    assert_eq!(s.state, SessionState::Active);
    let act = s.step(SessionEvent::Binary(b"still running".to_vec()));
    assert_eq!(expect_line(act), b"still running".to_vec());
}

#[test]
fn control_message_is_discarded() {
    let mut s = active_session("node0.example.com");
    match s.step(SessionEvent::Control) {
        SessionAction::DropControl => {}
        other => panic!("expected a discarded control message, got {other:?}"),
    }
    assert_eq!(s.state, SessionState::Active);
}

#[test]
fn payload_with_escape_codes_is_sanitized_before_emitting() {
    let mut s = active_session("node0.example.com");
    let act = s.step(SessionEvent::Binary(b"\x1b[31malert\x1b[0m".to_vec()));
    assert_eq!(expect_line(act), b"alert".to_vec());
}

#[test]
fn startup_failure_is_terminal() {
    let mut s = Session::new("node0.example.com".to_string());
    s.abort_connect(Termination::HandshakeFailed);
    assert_eq!(s.state, SessionState::Closed);
    assert_eq!(s.termination, Some(Termination::HandshakeFailed));
}

#[test]
fn transport_limits_are_five_kib() {
    assert_eq!(MAX_MESSAGE_BYTES, 5 * 1024);
    assert_eq!(MAX_FRAME_BYTES, 5 * 1024);
    assert_eq!(KEEPALIVE_PERIOD_SECS, 10);
}

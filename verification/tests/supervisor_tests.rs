use log_tailer::session::{SessionAction, SessionEvent, SessionState, Termination};
use log_tailer::supervisor::{plan_sessions, DiscoveryFailure, LaunchPlan};
use log_tailer::target::{build_target, make_target};
use log_tailer::ticker::Ticker;

#[test]
fn zero_addresses_spawn_zero_sessions() {
    match plan_sessions(Ok(Vec::new())) {
        LaunchPlan::Idle => {}
        other => panic!("expected a clean idle exit, got {other:?}"),
    }
}

#[test]
fn discovery_failure_is_propagated() {
    let plan = plan_sessions(Err(DiscoveryFailure { message: "fetch failed".to_string() }));
    match plan {
        LaunchPlan::Fail(f) => assert_eq!(f.message, "fetch failed"),
        other => panic!("expected a failure, got {other:?}"),
    }
}

#[test]
fn one_session_per_address_in_order() {
    let addrs = vec!["a.example.com".to_string(), "b.example.com".to_string()];
    match plan_sessions(Ok(addrs)) {
        LaunchPlan::Spawn(sessions) => {
            assert_eq!(sessions.len(), 2);
            assert_eq!(sessions[0].address, "a.example.com");
            assert_eq!(sessions[1].address, "b.example.com");
            for s in &sessions {
                assert_eq!(s.state, SessionState::Connecting);
                assert_eq!(s.termination, None);
            }
        }
        other => panic!("expected spawned sessions, got {other:?}"),
    }
}

#[test]
fn one_failed_handshake_leaves_other_sessions_running() {
    let addrs = vec![
        "a.example.com".to_string(),
        "b.example.com".to_string(),
        "c.example.com".to_string(),
    ];
    let mut sessions = match plan_sessions(Ok(addrs)) {
        LaunchPlan::Spawn(s) => s,
        other => panic!("expected spawned sessions, got {other:?}"),
    };
    assert_eq!(sessions.len(), 3);

    sessions[1].abort_connect(Termination::HandshakeFailed);
    sessions[0].activate();
    sessions[2].activate();

    for (i, text) in [(0usize, b"from a".to_vec()), (2usize, b"from c".to_vec())] {
        match sessions[i].step(SessionEvent::Binary(text.clone())) {
            SessionAction::EmitLine(line) => assert_eq!(line, text),
            other => panic!("expected an emitted line, got {other:?}"),
        }
        assert_eq!(sessions[i].state, SessionState::Active);
    }
    assert_eq!(sessions[1].state, SessionState::Closed);
    assert_eq!(sessions[1].termination, Some(Termination::HandshakeFailed));
}

#[test]
fn target_url_is_composed_from_template() {
    let url = build_target(&"node0.example.com".to_string(), &"abcde-aaaaa-cai".to_string());
    assert_eq!(url, "wss://node0.example.com/logs/canister/abcde-aaaaa-cai");
}

#[test]
fn valid_target_is_accepted() {
    let t = make_target(&"node0.example.com".to_string(), &"abcde-aaaaa-cai".to_string());
    assert_eq!(t, Some("wss://node0.example.com/logs/canister/abcde-aaaaa-cai".to_string()));
}

#[test]
fn malformed_target_is_rejected() {
    let t = make_target(&"bad host.example.com".to_string(), &"abcde-aaaaa-cai".to_string());
    assert_eq!(t, None);
}

#[test]
fn first_tick_is_suppressed() {
    let mut t = Ticker::new(0, 10);
    assert!(!t.poll(0));
    assert!(!t.poll(9));
    assert!(t.poll(10));
}

#[test]
fn at_most_one_tick_per_period_with_no_backlog() {
    let mut t = Ticker::new(0, 10);
    assert!(t.poll(35));
    assert!(!t.poll(36));
    assert!(!t.poll(44));
    assert!(t.poll(45));
}

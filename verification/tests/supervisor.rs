use dsh_client::supervisor::{
    describe_exit, parse_ready_port, Control, LogStream, LogTail, LoopAction, LoopEvent, ProbeCounter,
    State, Status, SupervisorCore, SupervisorEvent, LOG_TAIL_CAP,
};

#[test]
fn parses_the_ready_line() {
    assert_eq!(parse_ready_port("dsh web: http://127.0.0.1:39187"), Some(39187));
    assert_eq!(
        parse_ready_port("dsh web: http://127.0.0.1:39187 (LAN: http://192.168.1.4:39187)"),
        Some(39187)
    );
    assert_eq!(parse_ready_port("some unrelated line"), None);
    assert_eq!(parse_ready_port("dsh web: http://127.0.0.1:"), None);
}

#[test]
fn ready_port_edges() {
    assert_eq!(parse_ready_port("[x] dsh web: http://127.0.0.1:65535/"), Some(65535));
    assert_eq!(parse_ready_port("dsh web: http://127.0.0.1:65536"), None);
    assert_eq!(parse_ready_port("dsh web: http://127.0.0.1:0"), Some(0));
}

fn step(core: &mut SupervisorCore, e: LoopEvent) -> (Option<SupervisorEvent>, LoopAction) {
    assert!(core.accepts_event(&e));
    let s = core.step(e);
    (s.emit, s.action)
}

#[test]
fn observes_ready_line_then_stops_cleanly() {
    let mut core = SupervisorCore::new();
    let (emit, action) = step(&mut core, LoopEvent::Begin);
    assert!(matches!(emit, Some(SupervisorEvent::Starting { attempt: 1 })));
    assert_eq!(action, LoopAction::Spawn);
    let (emit, action) = step(&mut core, LoopEvent::Spawned { pid: 42 });
    assert!(emit.is_none());
    assert_eq!(action, LoopAction::AwaitReady);
    let (emit, action) = step(&mut core, LoopEvent::ReadyLine { port: 39123 });
    assert!(matches!(emit, Some(SupervisorEvent::Ready { port: 39123, pid: 42 })));
    assert_eq!(action, LoopAction::Supervise);
    assert_eq!(core.status.state, State::Running);
    assert_eq!(core.status.port, Some(39123));
    let (emit, action) = step(&mut core, LoopEvent::ControlChanged { control: Control::Stop });
    assert!(emit.is_none());
    assert_eq!(action, LoopAction::Kill);
    let (emit, action) = step(&mut core, LoopEvent::Killed);
    assert!(matches!(emit, Some(SupervisorEvent::Stopped)));
    assert_eq!(action, LoopAction::Finish);
    assert_eq!(core.status.state, State::Stopped);
    assert_eq!(core.status.port, None);
    assert!(!core.accepts_event(&LoopEvent::Begin));
}

#[test]
fn crash_enters_backoff_then_relaunches() {
    let mut core = SupervisorCore::new();
    step(&mut core, LoopEvent::Begin);
    step(&mut core, LoopEvent::Spawned { pid: 7 });
    let (emit, action) = step(&mut core, LoopEvent::ChildExited { reason: describe_exit(Some(1)) });
    assert!(emit.is_none());
    assert_eq!(action, LoopAction::ComputeDelay { attempt: 1 });
    let (emit, action) = step(&mut core, LoopEvent::DelayComputed { delay_ms: 500 });
    match emit {
        Some(SupervisorEvent::Crashed { attempt, reason, retry_in_ms }) => {
            assert_eq!(attempt, 1);
            assert_eq!(retry_in_ms, 500);
            assert!(reason.contains("exit code"), "reason was {reason}");
        }
        other => panic!("expected Crashed, got {other:?}"),
    }
    assert_eq!(action, LoopAction::Sleep { delay_ms: 500 });
    assert_eq!(core.status.state, State::Backoff);
    assert_eq!(core.status.restarts, 1);
    assert_eq!(core.status.last_error.as_deref(), Some("exit code 1 (retry in 500ms)"));
    let (emit, action) = step(&mut core, LoopEvent::BackoffElapsed);
    assert!(matches!(emit, Some(SupervisorEvent::Starting { attempt: 2 })));
    assert_eq!(action, LoopAction::Spawn);
    assert_eq!(core.status.last_error, None);
    assert_eq!(core.status.restarts, 1);
}

#[test]
fn hung_wrapper_with_dead_port_is_declared_crashed() {
    let mut core = SupervisorCore::new();
    step(&mut core, LoopEvent::Begin);
    step(&mut core, LoopEvent::Spawned { pid: 9 });
    step(&mut core, LoopEvent::ReadyLine { port: 39124 });
    let (emit, action) = step(&mut core, LoopEvent::ServiceDead);
    assert!(emit.is_none());
    assert_eq!(action, LoopAction::Kill);
    let (_, action) = step(&mut core, LoopEvent::Killed);
    assert_eq!(action, LoopAction::ComputeDelay { attempt: 1 });
    let (emit, _) = step(&mut core, LoopEvent::DelayComputed { delay_ms: 500 });
    match emit {
        Some(SupervisorEvent::Crashed { reason, .. }) => {
            assert!(reason.contains("stopped responding"), "reason was {reason}")
        }
        other => panic!("expected ServiceDead Crashed, got {other:?}"),
    }
}

#[test]
fn restart_during_backoff_starts_over_at_attempt_one() {
    let mut core = SupervisorCore::new();
    step(&mut core, LoopEvent::Begin);
    step(&mut core, LoopEvent::SpawnFailed { error: "not found".into() });
    let (emit, _) = step(&mut core, LoopEvent::DelayComputed { delay_ms: 500 });
    match emit {
        Some(SupervisorEvent::Crashed { reason, .. }) => assert_eq!(reason, "spawn failed: not found"),
        other => panic!("unexpected {other:?}"),
    }
    let (emit, action) = step(&mut core, LoopEvent::ControlChanged { control: Control::Restart });
    assert!(matches!(emit, Some(SupervisorEvent::Starting { attempt: 1 })));
    assert_eq!(action, LoopAction::Spawn);
}

#[test]
fn startup_timeout_kills_then_crashes() {
    let mut core = SupervisorCore::new();
    step(&mut core, LoopEvent::Begin);
    step(&mut core, LoopEvent::Spawned { pid: 1 });
    let (_, action) = step(&mut core, LoopEvent::StartupTimedOut);
    assert_eq!(action, LoopAction::Kill);
    step(&mut core, LoopEvent::Killed);
    let (emit, _) = step(&mut core, LoopEvent::DelayComputed { delay_ms: 1000 });
    match emit {
        Some(SupervisorEvent::Crashed { reason, .. }) => assert_eq!(reason, "no ready line within 300s"),
        other => panic!("unexpected {other:?}"),
    }
    assert_eq!(core.status.last_error.as_deref(), Some("no ready line within 300s (retry in 1s)"));
}

#[test]
fn stop_during_backoff_is_announced() {
    let mut core = SupervisorCore::new();
    step(&mut core, LoopEvent::Begin);
    step(&mut core, LoopEvent::SpawnFailed { error: "x".into() });
    step(&mut core, LoopEvent::DelayComputed { delay_ms: 500 });
    let (emit, action) = step(&mut core, LoopEvent::ControlChanged { control: Control::Stop });
    assert!(matches!(emit, Some(SupervisorEvent::Stopped)));
    assert_eq!(action, LoopAction::Finish);
    assert!(!core.accepts_event(&LoopEvent::ControlChanged { control: Control::Stop }));
}

#[test]
fn initial_status_and_snapshot() {
    let s = Status::initial();
    assert_eq!(s.state, State::Starting);
    assert_eq!(s.attempt, 1);
    assert_eq!(s.restarts, 0);
    let copy = s.snapshot();
    assert_eq!(copy.attempt, s.attempt);
}

#[test]
fn log_tail_keeps_the_last_lines() {
    let mut t = LogTail::new();
    for i in 0..(LOG_TAIL_CAP + 20) {
        t.push(if i % 2 == 0 { LogStream::Stdout } else { LogStream::Stderr }, format!("l{i}"));
    }
    assert_eq!(t.len(), LOG_TAIL_CAP);
    let last = t.tail(3);
    assert_eq!(last.len(), 3);
    assert_eq!(last[2].1, format!("l{}", LOG_TAIL_CAP + 19));
    assert_eq!(last[0].1, format!("l{}", LOG_TAIL_CAP + 17));
    assert_eq!(t.tail(10_000).len(), LOG_TAIL_CAP);
    assert_eq!(t.tail(10_000)[0].1, "l20");
}

#[test]
fn exit_descriptions() {
    assert_eq!(describe_exit(Some(3)), "exit code 3");
    assert_eq!(describe_exit(Some(-1)), "exit code -1");
    assert_eq!(describe_exit(None), "killed by signal");
}

#[test]
fn three_refused_probes_mean_dead() {
    let mut p = ProbeCounter::new();
    assert!(!p.record(false));
    assert!(!p.record(true));
    assert!(!p.record(false));
    assert!(!p.record(false));
    assert!(p.record(false));
    // The count starts over after a death.
    assert!(!p.record(false));
}

#[test]
fn any_stdout_line_can_signal_readiness() {
    assert_eq!(
        dsh_client::supervisor::ready_signal(LogStream::Stdout, true, "dsh web: http://127.0.0.1:4000"),
        (Some(4000), false)
    );
    // A notice before the URL line leaves the reader looking.
    assert_eq!(dsh_client::supervisor::ready_signal(LogStream::Stdout, true, "npm notice"), (None, true));
    assert_eq!(
        dsh_client::supervisor::ready_signal(LogStream::Stdout, false, "dsh web: http://127.0.0.1:4000"),
        (None, false)
    );
    assert_eq!(
        dsh_client::supervisor::ready_signal(LogStream::Stderr, true, "dsh web: http://127.0.0.1:4000"),
        (None, true)
    );
}

#[test]
fn wait_failure_reason() {
    assert_eq!(dsh_client::supervisor::wait_failed_reason("boom"), "wait failed: boom");
}

use nginx_dashboard::dashboard::{
    is_privileged, is_quit_key, remaining_sleep_ms, sample, step, Key, LoopAction, LoopEvent,
    LoopState, CYCLE_MS, LOG_LINES,
};
use nginx_dashboard::usage::ResourceUsage;

#[test]
fn quit_keys() {
    assert!(is_quit_key(Key::Char('q')));
    assert!(is_quit_key(Key::Esc));
    assert!(!is_quit_key(Key::Char('Q')));
    assert!(!is_quit_key(Key::Other));
}

#[test]
fn quit_restores_terminal_before_exit() {
    let (s, a) = step(LoopState::Running, LoopEvent::Polled(Some(Key::Char('q'))));
    assert_eq!((s, a), (LoopState::ShuttingDown, LoopAction::RestoreTerminal));
    let (s, a) = step(s, LoopEvent::Restored);
    assert_eq!((s, a), (LoopState::Finished, LoopAction::Exit));
    assert_eq!(step(s, LoopEvent::Polled(None)), (LoopState::Finished, LoopAction::Exit));
}

#[test]
fn escape_quits_too() {
    assert_eq!(
        step(LoopState::Running, LoopEvent::Polled(Some(Key::Esc))),
        (LoopState::ShuttingDown, LoopAction::RestoreTerminal)
    );
}

#[test]
fn other_keys_and_timeouts_refresh() {
    assert_eq!(
        step(LoopState::Running, LoopEvent::Polled(None)),
        (LoopState::Running, LoopAction::Refresh)
    );
    assert_eq!(
        step(LoopState::Running, LoopEvent::Polled(Some(Key::Char('x')))),
        (LoopState::Running, LoopAction::Refresh)
    );
}

#[test]
fn failure_still_restores_terminal() {
    let (s, a) = step(LoopState::Running, LoopEvent::CycleFailed);
    assert_eq!((s, a), (LoopState::ShuttingDown, LoopAction::RestoreTerminal));
    assert_eq!(
        step(s, LoopEvent::Polled(None)),
        (LoopState::ShuttingDown, LoopAction::RestoreTerminal)
    );
}

#[test]
fn sleep_fills_the_rest_of_the_cycle() {
    assert_eq!(remaining_sleep_ms(CYCLE_MS, 0), 1000);
    assert_eq!(remaining_sleep_ms(CYCLE_MS, 350), 650);
    assert_eq!(remaining_sleep_ms(CYCLE_MS, 1000), 0);
    assert_eq!(remaining_sleep_ms(CYCLE_MS, 4000), 0);
}

#[test]
fn only_root_is_privileged() {
    assert!(is_privileged(0));
    assert!(!is_privileged(1000));
}

#[test]
fn server_not_running_gives_zero_usage_and_other_fields() {
    let snap = sample(
        Some("nginx version: nginx/1.24.0\n".to_string()),
        Some("nginx: configuration file test failed\n".to_string()),
        Some("".to_string()),
        Some(b"%CPU %MEM\n".to_vec()),
    );
    assert_eq!(snap.usage, Some(ResourceUsage { cpu_milli: 0, mem_milli: 0 }));
    assert_eq!(snap.version.as_deref(), Some("nginx version: nginx/1.24.0\n"));
    assert_eq!(snap.config_check.as_deref(), Some("nginx: configuration file test failed\n"));
    assert_eq!(snap.pid.as_deref(), Some(""));
}

#[test]
fn failed_queries_are_unavailable_independently() {
    let snap = sample(None, Some("ok\n".to_string()), None, Some(b"%CPU %MEM\n10.0 20.0\n30.0 40.0\n".to_vec()));
    assert!(snap.version.is_none());
    assert!(snap.pid.is_none());
    assert_eq!(snap.config_check.as_deref(), Some("ok\n"));
    assert_eq!(snap.usage, Some(ResourceUsage { cpu_milli: 20000, mem_milli: 30000 }));
    let snap = sample(Some("v".to_string()), None, Some("17\n".to_string()), None);
    assert!(snap.usage.is_none());
    assert_eq!(snap.pid.as_deref(), Some("17\n"));
    assert_eq!(LOG_LINES, 10);
}

use wssh_client::errors::ClientError;
use wssh_client::session::{RemoteMsg, SessionAction, SessionEvent, TerminalSession};

fn running_session() -> TerminalSession {
    let mut s = TerminalSession::new();
    s.on_raw_mode_enabled();
    s.on_pty_result(true);
    s.on_signals_subscribed(true);
    s
}

#[test]
fn resize_issues_exactly_one_window_change() {
    let mut s = running_session();
    match s.step(SessionEvent::Resize { cols: 120, rows: 40 }) {
        SessionAction::SendWindowChange { cols, rows } => {
            assert_eq!(cols, 120);
            assert_eq!(rows, 40);
        }
        _ => panic!("a resize yields exactly a window-change notification"),
    }
    // The session is still running and pending events are not affected.
    match s.step(SessionEvent::LocalInput(vec![b'x'])) {
        SessionAction::SendChannelData(d) => assert_eq!(d, vec![b'x']),
        _ => panic!("local input still forwarded after a resize"),
    }
}

#[test]
fn local_input_forwarded_verbatim() {
    let mut s = running_session();
    match s.step(SessionEvent::LocalInput(vec![1u8, 2, 3])) {
        SessionAction::SendChannelData(d) => assert_eq!(d, vec![1u8, 2, 3]),
        _ => panic!("local input becomes channel data"),
    }
}

#[test]
fn remote_data_written_and_flushed() {
    let mut s = running_session();
    match s.step(SessionEvent::Remote(RemoteMsg::Data(vec![7u8, 8]))) {
        SessionAction::WriteStdoutAndFlush(d) => assert_eq!(d, vec![7u8, 8]),
        _ => panic!("remote data goes to standard output"),
    }
}

#[test]
fn other_remote_message_ignored() {
    let mut s = running_session();
    match s.step(SessionEvent::Remote(RemoteMsg::Other)) {
        SessionAction::Ignore => {}
        _ => panic!("unknown channel messages are ignored"),
    }
    // Still running.
    match s.step(SessionEvent::Remote(RemoteMsg::Other)) {
        SessionAction::Ignore => {}
        _ => panic!("still running"),
    }
}

#[test]
fn exit_status_restores_raw_mode_exactly_once() {
    let mut s = running_session();
    match s.step(SessionEvent::Remote(RemoteMsg::ExitStatus(0))) {
        SessionAction::CloseChannel => {}
        _ => panic!("exit status closes the channel"),
    }
    assert!(s.teardown(), "the first teardown orders the restoration");
    assert!(!s.teardown(), "a second teardown orders nothing");
    assert_eq!(s.outcome(false), Ok(()));
}

#[test]
fn eof_restores_raw_mode_exactly_once() {
    let mut s = running_session();
    match s.step(SessionEvent::Remote(RemoteMsg::Eof)) {
        SessionAction::CloseChannel => {}
        _ => panic!("end of stream closes the channel"),
    }
    assert!(s.teardown());
    assert!(!s.teardown());
    assert_eq!(s.outcome(false), Ok(()));
}

#[test]
fn restoration_failure_never_suppresses_the_original_error() {
    let mut s = running_session();
    s.on_fatal(ClientError::SessionProtocol);
    assert!(s.teardown());
    // Even though restoring the terminal failed, the captured error wins.
    assert_eq!(s.outcome(true), Err(ClientError::SessionProtocol));
}

#[test]
fn restoration_failure_on_clean_exit_is_reported() {
    let mut s = running_session();
    s.step(SessionEvent::Remote(RemoteMsg::Eof));
    assert!(s.teardown());
    assert_eq!(s.outcome(true), Err(ClientError::LocalIo));
}

#[test]
fn signal_subscription_failure_is_fatal_but_restores_first() {
    let mut s = TerminalSession::new();
    s.on_raw_mode_enabled();
    s.on_pty_result(true);
    s.on_signals_subscribed(false);
    assert!(s.teardown(), "raw mode was on, so restoration is owed");
    assert_eq!(s.outcome(false), Err(ClientError::SignalSubscription));
}

#[test]
fn pty_failure_is_not_fatal() {
    let mut s = TerminalSession::new();
    s.on_raw_mode_enabled();
    s.on_pty_result(false);
    s.on_signals_subscribed(true);
    match s.step(SessionEvent::LocalInput(vec![b'a'])) {
        SessionAction::SendChannelData(d) => assert_eq!(d, vec![b'a']),
        _ => panic!("the session proceeds degraded"),
    }
}

#[test]
fn error_descriptions_are_stable() {
    assert_eq!(ClientError::Transport.describe(), "transport failure");
    assert_eq!(ClientError::Frame.describe(), "frame failure");
    assert_eq!(ClientError::SessionProtocol.describe(), "session protocol failure");
    assert_eq!(ClientError::LocalIo.describe(), "local i/o failure");
    assert_eq!(ClientError::SignalSubscription.describe(), "signal subscription failure");
}

use fox_tools::protocol::{events_of_line, Event};
use fox_tools::session::{
    Session, SessionAction, SessionInput, Timer, HEARTBEAT_INTERVAL_SECS,
    SHORT_SN_RESPONSE_TIMEOUT_SECS,
};

const SERVER: &str = "ws://10.0.0.2:3000";

fn connected() -> Session {
    let (mut session, _) = Session::start(SERVER);
    session.step(SessionInput::Device(Event::ShortSn("42".to_string())));
    session.step(SessionInput::Connected);
    session
}

#[test]
fn a_session_starts_with_a_heartbeat() {
    let (session, line) = Session::start(SERVER);
    assert_eq!(line, b"referee heartbeat\n".to_vec());
    assert!(session.waiting_short_sn && !session.ws_open && !session.connecting);
    assert!(session.current_short_sn.is_none());
    assert_eq!(session.timer(), Timer::Answer { secs: 3 });
    assert_eq!(SHORT_SN_RESPONSE_TIMEOUT_SECS, 3);
}

#[test]
fn silence_ends_the_session() {
    let (mut session, _) = Session::start(SERVER);
    match session.step(SessionInput::TimedOut) {
        SessionAction::Stop { text } => assert_eq!(
            text.as_deref(),
            Some("超过 3 秒未收到新的 SerialProtocolShortSN，正在断开并关闭串口。")
        ),
        other => panic!("{other:?}"),
    }
}

#[test]
fn the_first_answer_opens_the_websocket() {
    let (mut session, _) = Session::start(SERVER);
    match session.step(SessionInput::Device(Event::ShortSn("42".to_string()))) {
        SessionAction::Connect { url } => assert_eq!(url, "ws://10.0.0.2:3000/ws/devices/42"),
        other => panic!("{other:?}"),
    }
    assert!(session.connecting && !session.waiting_short_sn);
    assert_eq!(session.current_short_sn.as_deref(), Some("42"));
    assert!(matches!(session.step(SessionInput::Connected), SessionAction::AttachWs));
    assert!(session.ws_open && !session.connecting);
    assert_eq!(session.timer(), Timer::Heartbeat { secs: 5 });
    assert_eq!(HEARTBEAT_INTERVAL_SECS, 5);
}

#[test]
fn later_answers_open_none() {
    let mut session = connected();
    match session.step(SessionInput::HeartbeatDue) {
        SessionAction::WriteSerial(bytes) => assert_eq!(bytes, b"referee heartbeat\n".to_vec()),
        other => panic!("{other:?}"),
    }
    assert!(session.waiting_short_sn);
    let action = session.step(SessionInput::Device(Event::ShortSn("43".to_string())));
    assert!(matches!(action, SessionAction::Nothing));
    assert!(!session.waiting_short_sn && session.ws_open);
    assert_eq!(session.current_short_sn.as_deref(), Some("43"));
}

#[test]
fn a_failed_connection_is_told_and_tried_again() {
    let (mut session, _) = Session::start(SERVER);
    session.step(SessionInput::Device(Event::ShortSn("42".to_string())));
    match session.step(SessionInput::ConnectFailed("refused".to_string())) {
        SessionAction::ShowError(text) => assert_eq!(text, "WS 连接失败: refused"),
        other => panic!("{other:?}"),
    }
    assert!(!session.ws_open && !session.connecting);
    let action = session.step(SessionInput::Device(Event::ShortSn("42".to_string())));
    assert!(matches!(action, SessionAction::Connect { .. }));
}

#[test]
fn requests_are_forwarded_while_connected() {
    let mut session = connected();
    match session.handle_event(Event::ProtocolHex("A5ff".to_string())) {
        SessionAction::Forward(bytes) => assert_eq!(bytes, vec![0xA5, 0xFF]),
        other => panic!("{other:?}"),
    }
    for bad in ["A5f", "xy"] {
        let action = session.handle_event(Event::ProtocolHex(bad.to_string()));
        assert!(matches!(action, SessionAction::Nothing));
    }
    let (mut session, _) = Session::start(SERVER);
    let action = session.handle_event(Event::ProtocolHex("A5ff".to_string()));
    assert!(matches!(action, SessionAction::Nothing));
}

#[test]
fn a_lost_websocket_is_opened_again() {
    let mut session = connected();
    match session.handle_event(Event::WsClosed) {
        SessionAction::CloseWs { notice, shut_down } => {
            assert_eq!(notice, "由于 websocket 断开，停止串口读取循环。");
            assert!(shut_down);
        }
        other => panic!("{other:?}"),
    }
    assert!(!session.ws_open);
    match session.handle_event(Event::WsClosed) {
        SessionAction::CloseWs { shut_down, .. } => assert!(!shut_down),
        other => panic!("{other:?}"),
    }
    let action = session.handle_event(Event::ShortSn("42".to_string()));
    assert!(matches!(action, SessionAction::Connect { .. }));
}

#[test]
fn a_closed_port_ends_the_session() {
    let mut session = connected();
    let action = session.handle_event(Event::SerialClosed);
    assert!(matches!(action, SessionAction::Stop { text: None }));
    assert!(session.finish());
    assert!(!session.ws_open);
    assert!(!session.finish());
}

#[test]
fn a_printed_request_reaches_the_server() {
    let mut session = connected();
    let line = "I (9) FOX-RefereeSystem: SerialProtocolRequest[0102ff] sent\r\n";
    let mut forwarded = Vec::new();
    for event in events_of_line(line) {
        if let SessionAction::Forward(bytes) = session.handle_event(event) {
            forwarded.push(bytes);
        }
    }
    assert_eq!(forwarded, vec![vec![1, 2, 0xff]]);
}

use fox_tools::protocol::Event;
use fox_tools::tasks::{
    serial_reader_step, serial_writer_step, ws_recv_step, ws_send_step, QueueInput, QueueStep,
    ReaderInput, WsInput, WsStep, CLOSED_BY_SERVER_LABEL,
};

fn read(line: &str) -> ReaderInput {
    ReaderInput::Read { count: line.len(), line: line.to_string() }
}

#[test]
fn lines_are_logged_and_passed_on() {
    let step = serial_reader_step(read("SerialProtocolShortSN[7]\r\n"));
    assert_eq!(step.log.as_deref(), Some("SerialProtocolShortSN[7]\r\n"));
    assert!(step.notice.is_none() && !step.stop);
    assert!(matches!(&step.events[..], [Event::ShortSn(sn)] if sn == "7"));
    let step = serial_reader_step(read("\n"));
    assert_eq!(step.log.as_deref(), Some("\n"));
    assert!(step.events.is_empty() && !step.stop);
}

#[test]
fn the_end_of_the_port_is_reported() {
    let step = serial_reader_step(read(""));
    assert_eq!(step.notice, Some("串口已关闭。"));
    assert!(step.stop && step.log.is_none());
    assert!(matches!(&step.events[..], [Event::SerialClosed]));
    let step = serial_reader_step(ReaderInput::Failed);
    assert!(step.stop && step.notice.is_none() && step.log.is_none());
    assert!(matches!(&step.events[..], [Event::SerialClosed]));
    let step = serial_reader_step(ReaderInput::ShutDown);
    assert!(step.stop && step.notice.is_none() && step.events.is_empty());
}

#[test]
fn the_log_holds_every_line() {
    let mut log = String::new();
    let mut closed = 0;
    for line in ["a\n", "\r\n", "b", ""] {
        let step = serial_reader_step(read(line));
        if let Some(raw) = step.log {
            log.push_str(&raw);
        }
        closed += step.events.iter().filter(|e| matches!(e, Event::SerialClosed)).count();
        if step.stop {
            break;
        }
    }
    assert_eq!(log, "a\n\r\nb");
    assert_eq!(closed, 1);
}

#[test]
fn queues_are_emptied_in_order() {
    let mut sent = Vec::new();
    for message in [vec![1u8], vec![2, 3], vec![]] {
        match serial_writer_step(QueueInput::Message(message)) {
            QueueStep::Send(bytes) => sent.push(bytes),
            other => panic!("{other:?}"),
        }
        assert!(matches!(serial_writer_step(QueueInput::Sent), QueueStep::Wait));
    }
    assert_eq!(sent, vec![vec![1u8], vec![2, 3], vec![]]);
    match ws_send_step(QueueInput::Message(vec![9])) {
        QueueStep::Send(bytes) => assert_eq!(bytes, vec![9]),
        other => panic!("{other:?}"),
    }
    assert!(matches!(ws_send_step(QueueInput::Sent), QueueStep::Wait));
}

#[test]
fn senders_end() {
    for input in [QueueInput::ShutDown, QueueInput::Closed, QueueInput::SendFailed] {
        assert!(matches!(serial_writer_step(input), QueueStep::Stop { event: None }));
    }
    for input in [QueueInput::ShutDown, QueueInput::Closed] {
        assert!(matches!(ws_send_step(input), QueueStep::Stop { event: None }));
    }
    let step = ws_send_step(QueueInput::SendFailed);
    assert!(matches!(step, QueueStep::Stop { event: Some(Event::WsClosed) }));
}

#[test]
fn messages_become_commands() {
    match ws_recv_step(WsInput::Binary(vec![0xA5, 1])) {
        WsStep::Write(bytes) => assert_eq!(bytes, b"referee send A501\n".to_vec()),
        other => panic!("{other:?}"),
    }
    assert!(matches!(ws_recv_step(WsInput::Other), WsStep::Wait));
}

#[test]
fn the_receiver_ends() {
    for input in [WsInput::ShutDown, WsInput::WriterGone] {
        assert!(matches!(ws_recv_step(input), WsStep::Stop { reason: None, event: None }));
    }
    for input in [WsInput::Ended, WsInput::Failed] {
        let step = ws_recv_step(input);
        assert!(matches!(step, WsStep::Stop { reason: None, event: Some(Event::WsClosed) }));
    }
    match ws_recv_step(WsInput::Close("None".to_string())) {
        WsStep::Stop { reason: Some(reason), event: Some(Event::WsClosed) } => {
            assert_eq!(reason, "None")
        }
        other => panic!("{other:?}"),
    }
    assert_eq!(CLOSED_BY_SERVER_LABEL, "websocket连接被服务器关闭：");
}

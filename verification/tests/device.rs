use fox_tools::device::{DeviceAction, DeviceRun, Stage};
use fox_tools::ports::{PortInfo, PortKind, UsbInfo};

fn run() -> DeviceRun {
    DeviceRun::start(&PortInfo {
        name: "COM3".to_string(),
        kind: PortKind::Usb(UsbInfo {
            vid: 1,
            pid: 2,
            serial_number: Some("AA:BB".to_string()),
            manufacturer: None,
            product: None,
        }),
    })
}

#[test]
fn a_run_goes_through_its_stages() {
    let mut run = run();
    assert_eq!(run.stage, Stage::CreatingLog);
    assert_eq!(run.port_name, "COM3");
    assert!(run.log_filename.starts_with("logs_AABB_"));
    let name = run.log_filename.clone();
    match run.step(Ok(())) {
        DeviceAction::OpenPort { log_filename } => assert_eq!(log_filename, name),
        other => panic!("{other:?}"),
    }
    assert_eq!(run.stage, Stage::OpeningPort);
    match run.step(Ok(())) {
        DeviceAction::RunSession { port_name } => assert_eq!(port_name, "COM3"),
        other => panic!("{other:?}"),
    }
    assert_eq!(run.stage, Stage::Running);
    match run.step(Ok(())) {
        DeviceAction::Finish { failure: None, port_name } => assert_eq!(port_name, "COM3"),
        other => panic!("{other:?}"),
    }
    assert_eq!(run.stage, Stage::Over);
}

#[test]
fn a_run_without_a_log_file_is_given_up() {
    let mut run = run();
    let expected = format!("创建设备日志文件失败（{}）：full", run.log_filename);
    match run.step(Err("full".to_string())) {
        DeviceAction::GiveUp { error } => assert_eq!(error, expected),
        other => panic!("{other:?}"),
    }
    assert_eq!(run.stage, Stage::Over);
}

#[test]
fn a_run_without_a_port_is_given_up() {
    let mut run = run();
    run.step(Ok(()));
    match run.step(Err("busy".to_string())) {
        DeviceAction::GiveUp { error } => assert_eq!(error, "打开串口 COM3 失败：busy"),
        other => panic!("{other:?}"),
    }
    assert_eq!(run.stage, Stage::Over);
}

#[test]
fn a_failed_session_is_told() {
    let mut run = run();
    run.step(Ok(()));
    run.step(Ok(()));
    match run.step(Err("lost".to_string())) {
        DeviceAction::Finish { failure: Some(text), port_name } => {
            assert_eq!(text, "串口转发运行出错（COM3）：lost");
            assert_eq!(port_name, "COM3");
        }
        other => panic!("{other:?}"),
    }
    assert_eq!(run.stage, Stage::Over);
}

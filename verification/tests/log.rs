use fox_tools::log_file::{log_filename_at, make_log_filename, recording_filename};
use fox_tools::log_line::{line_color, log_step, LineColor, LogInput, LogStep};
use fox_tools::ports::{PortInfo, PortKind, UsbInfo};

fn port(sn: Option<&str>) -> PortInfo {
    PortInfo {
        name: "p".to_string(),
        kind: PortKind::Usb(UsbInfo {
            vid: 1,
            pid: 2,
            serial_number: sn.map(|s| s.to_string()),
            manufacturer: None,
            product: None,
        }),
    }
}

fn read(line: &str) -> LogInput {
    LogInput::Read { count: line.len(), line: line.to_string() }
}

/// Tests the form `YYYY-MM-DD-HH-MM-SS`, and that the time is not before 2020.
fn is_recent_stamp(stamp: &str) -> bool {
    let parts: Vec<&str> = stamp.split('-').collect();
    let widths: Vec<usize> = parts.iter().map(|p| p.len()).collect();
    if widths != [4, 2, 2, 2, 2, 2] {
        return false;
    }
    let numbers: Vec<u32> = parts.iter().map(|p| p.parse::<u32>().unwrap()).collect();
    numbers[0] >= 2020
        && (1..=12).contains(&numbers[1])
        && (1..=31).contains(&numbers[2])
        && numbers[3] <= 23
        && numbers[4] <= 59
        && numbers[5] <= 60
}

#[test]
fn forwarded_devices_have_log_files_without_colons() {
    let name = make_log_filename(&port(Some("AA:BB:CC")));
    let stamp = name.strip_prefix("logs_AABBCC_").unwrap().strip_suffix(".txt").unwrap();
    assert!(is_recent_stamp(stamp), "{name}");
    assert!(!name.contains(':'));
    assert!(make_log_filename(&port(None)).starts_with("logs_UNKNOWN_"));
}

#[test]
fn recordings_keep_the_serial_number() {
    let name = recording_filename(&port(Some("AA:BB")));
    let stamp = name.strip_prefix("logs_AA:BB_").unwrap().strip_suffix(".txt").unwrap();
    assert!(is_recent_stamp(stamp), "{name}");
    let other = PortInfo { name: "q".to_string(), kind: PortKind::Pci };
    assert!(recording_filename(&other).starts_with("logs_UNKNOWN_"));
    assert_eq!(log_filename_at("A", "B"), "logs_A_B.txt");
}

#[test]
fn colors_go_by_the_first_letter() {
    assert_eq!(line_color("I (1) x"), LineColor::Green);
    assert_eq!(line_color("W (1) x"), LineColor::Yellow);
    assert_eq!(line_color("E (1) x"), LineColor::Red);
    assert_eq!(line_color(" E"), LineColor::White);
    assert_eq!(line_color("i"), LineColor::White);
    assert_eq!(line_color(""), LineColor::White);
}

#[test]
fn lines_are_recorded() {
    match log_step(read("W (5) low\r\n")) {
        LogStep::Record { text, color, raw } => {
            assert_eq!(text, "W (5) low");
            assert_eq!(color, LineColor::Yellow);
            assert_eq!(raw, "W (5) low\r\n");
        }
        other => panic!("{other:?}"),
    }
    assert!(matches!(log_step(read("\r\n")), LogStep::Skip));
    assert!(matches!(log_step(LogInput::TimedOut), LogStep::Skip));
}

#[test]
fn recordings_end() {
    match log_step(read("")) {
        LogStep::Closed(text) => assert_eq!(text, "串口已关闭。"),
        other => panic!("{other:?}"),
    }
    match log_step(LogInput::Failed("gone".to_string())) {
        LogStep::Failed(text) => assert_eq!(text, "读取串口错误：gone"),
        other => panic!("{other:?}"),
    }
}

#[test]
fn the_recording_holds_the_lines() {
    let mut kept = String::new();
    for line in ["I a\n", "\n", "plain\r\n"] {
        if let LogStep::Record { raw, .. } = log_step(read(line)) {
            kept.push_str(&raw);
        }
    }
    assert_eq!(kept, "I a\nplain\r\n");
}

use fox_tools::ports::{
    connection_usb_info, discover_usb_ports, found_port_parts, is_ignored_port, list_failure_text,
    open_failure_text, pick_port, port_entry_text, serial_number, single_port_text, survey_ports,
    usb_ids_text, usb_ports, Pick, PortInfo, PortKind, Survey, UsbInfo, BAUD_RATE,
    RESCAN_DELAY_SECS,
};

fn usb(vid: u16, pid: u16, sn: Option<&str>) -> PortKind {
    PortKind::Usb(UsbInfo {
        vid,
        pid,
        serial_number: sn.map(|s| s.to_string()),
        manufacturer: Some("Espressif".to_string()),
        product: None,
    })
}

fn port(name: &str, kind: PortKind) -> PortInfo {
    PortInfo { name: name.to_string(), kind }
}

fn names(ports: &[PortInfo]) -> Vec<&str> {
    ports.iter().map(|p| p.name.as_str()).collect()
}

fn mixed() -> Vec<PortInfo> {
    vec![
        port("/dev/tty.usb1", usb(0x303A, 0x1001, Some("AA:BB"))),
        port("/dev/ttyS0", PortKind::Pci),
        port("/dev/cu.usb1", usb(0x303A, 0x1001, None)),
        port("bt", PortKind::Bluetooth),
        port("x", PortKind::Unknown),
    ]
}

#[test]
fn only_usb_ports_are_kept() {
    let ports = mixed();
    assert_eq!(names(&usb_ports(&ports)), ["/dev/tty.usb1", "/dev/cu.usb1"]);
    assert_eq!(names(&discover_usb_ports(&ports, false)), ["/dev/tty.usb1", "/dev/cu.usb1"]);
    assert_eq!(names(&discover_usb_ports(&ports, true)), ["/dev/cu.usb1"]);
    assert!(usb_ports(&Vec::new()).is_empty());
}

#[test]
fn twins_are_ignored_on_macos_only() {
    let twin = port("/dev/tty.usb1", PortKind::Unknown);
    assert!(is_ignored_port(&twin, true));
    assert!(!is_ignored_port(&twin, false));
    assert!(!is_ignored_port(&port("/dev/ttyUSB0", PortKind::Unknown), true));
}

#[test]
fn surveys() {
    assert!(matches!(survey_ports(&vec![port("p", PortKind::Pci)]), Survey::NoneFound));
    assert!(matches!(survey_ports(&Vec::new()), Survey::NoneFound));
    match survey_ports(&vec![port("p", PortKind::Pci), port("COM3", usb(0x1A, 0xBEEF, None))]) {
        Survey::Single { port, text } => {
            assert_eq!(port.name, "COM3");
            assert_eq!(text, "COM3 (VID: 0x001A, PID: 0xBEEF)");
        }
        other => panic!("{other:?}"),
    }
    match survey_ports(&mixed()) {
        Survey::Several { ports, lines } => {
            assert_eq!(names(&ports), ["/dev/tty.usb1", "/dev/cu.usb1"]);
            assert_eq!(lines[0], "0: /dev/tty.usb1 (VID: 0x303A, PID: 0x1001, SN: AA:BB)");
            assert_eq!(lines[1], "1: /dev/cu.usb1 (VID: 0x303A, PID: 0x1001, SN: 未知)");
            assert_eq!(lines.len(), 2);
        }
        other => panic!("{other:?}"),
    }
}

#[test]
fn answers_choose_a_port() {
    let ports = usb_ports(&mixed());
    for (answer, name) in
        [("0", "/dev/tty.usb1"), (" 1\r\n", "/dev/cu.usb1"), ("+1\n", "/dev/cu.usb1"), ("00", "/dev/tty.usb1")]
    {
        match pick_port(&ports, answer) {
            Pick::Chosen(chosen) => assert_eq!(chosen.name, name),
            other => panic!("{other:?}"),
        }
    }
}

#[test]
fn other_answers_choose_none() {
    let ports = usb_ports(&mixed());
    for (answer, shown) in
        [("2\n", "2"), ("\n", ""), ("-1", "-1"), (" one ", "one"), ("99999999999999999999999", "99999999999999999999999")]
    {
        match pick_port(&ports, answer) {
            Pick::Invalid(text) => {
                assert_eq!(text, format!("无效选择 '{shown}'。请输入 0 到 1 之间的数字。"))
            }
            other => panic!("{other:?}"),
        }
    }
}

#[test]
fn every_listed_number_chooses_its_port() {
    let many: Vec<PortInfo> =
        (0..12).map(|i| port(&format!("p{i}"), usb(1, i as u16, None))).collect();
    for (i, p) in many.iter().enumerate() {
        match pick_port(&many, &format!("\t{i} \n")) {
            Pick::Chosen(chosen) => assert_eq!(chosen.name, p.name),
            other => panic!("{other:?}"),
        }
    }
}

#[test]
fn connections_take_the_usb_data() {
    let info = connection_usb_info(&usb(0x303A, 0x1001, Some("SN"))).unwrap();
    assert_eq!((info.vid, info.pid), (0x303A, 0x1001));
    assert_eq!(info.serial_number.as_deref(), Some("SN"));
    assert_eq!(info.manufacturer.as_deref(), Some("Espressif"));
    assert!(info.product.is_none());
    for kind in [PortKind::Pci, PortKind::Unknown] {
        let info = connection_usb_info(&kind).unwrap();
        assert_eq!((info.vid, info.pid), (0, 0));
        assert!(info.serial_number.is_none() && info.manufacturer.is_none());
    }
    let refused = connection_usb_info(&PortKind::Bluetooth).unwrap_err();
    assert_eq!(refused, "不支持的串口类型：BluetoothPort");
}

#[test]
fn ports_are_shown() {
    let p = port("COM9", usb(0x000F, 0xA, Some("S:N")));
    assert_eq!(port_entry_text(10, &p), "10: COM9 (VID: 0x000F, PID: 0x000A, SN: S:N)");
    assert_eq!(port_entry_text(3, &port("q", PortKind::Pci)), "3: q");
    assert_eq!(single_port_text(&port("q", PortKind::Pci)), "q");
    assert_eq!(serial_number(&p.kind, "-"), "S:N");
    assert_eq!(serial_number(&PortKind::Pci, "-"), "-");
    assert_eq!(serial_number(&usb(1, 2, None), "-"), "-");
    let (label, parts) = found_port_parts(&p);
    assert_eq!(label, "发现新的USB串口设备:");
    let (front, sn) = parts.unwrap();
    assert_eq!(front, " (VID: 0x000F, PID: 0x000A, SN: ");
    assert_eq!(sn, "S:N");
    let (label, parts) = found_port_parts(&port("q", PortKind::Unknown));
    assert_eq!(label, "发现设备:");
    assert!(parts.is_none());
    match &p.kind {
        PortKind::Usb(info) => assert_eq!(usb_ids_text(info), "VID: 0x000F, PID: 0x000A"),
        other => panic!("{other:?}"),
    }
}

#[test]
fn port_failures_are_told() {
    assert_eq!(open_failure_text("COM1", "busy"), "打开串口 'COM1' 失败：busy");
    assert_eq!(list_failure_text("denied"), "列出串口失败：denied");
    assert_eq!(BAUD_RATE, 115_200);
    assert_eq!(RESCAN_DELAY_SECS, 2);
}

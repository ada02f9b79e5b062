use fox_tools::protocol::{
    events_of_line, extract_protocol_hex, extract_short_sn, heartbeat_line, hex_is_whole,
    hex_to_bytes, send_line, Event,
};

#[test]
fn requests_are_extracted() {
    let line = "I (123) FOX-RefereeSystem: SerialProtocolRequest[A501FF] tail]";
    assert_eq!(extract_protocol_hex(line), Some("A501FF"));
    assert_eq!(extract_protocol_hex("FOX-RefereeSystem: SerialProtocolRequest[]"), None);
    assert_eq!(extract_protocol_hex("FOX-RefereeSystem: SerialProtocolRequest[A5"), None);
    assert_eq!(extract_protocol_hex("RefereeSystem: SerialProtocolRequest[A5]"), None);
    assert_eq!(extract_protocol_hex(""), None);
    let two = "FOX-RefereeSystem: SerialProtocolRequest[01]FOX-RefereeSystem: SerialProtocolRequest[02]";
    assert_eq!(extract_protocol_hex(two), Some("01"));
    assert_eq!(extract_protocol_hex("你好 FOX-RefereeSystem: SerialProtocolRequest[你]"), Some("你"));
}

#[test]
fn short_serial_numbers_are_extracted() {
    assert_eq!(extract_short_sn("x SerialProtocolShortSN[ 12AB ] y").as_deref(), Some("12AB"));
    assert_eq!(extract_short_sn("SerialProtocolShortSN[]"), None);
    assert_eq!(extract_short_sn("SerialProtocolShortSN[ \t]"), None);
    assert_eq!(extract_short_sn("SerialProtocolShortSN[12"), None);
    assert_eq!(extract_short_sn("SerialProtocolShortSn[12]"), None);
}

#[test]
fn only_the_first_prefix_counts() {
    let line = "SerialProtocolShortSN[]SerialProtocolShortSN[12]";
    assert_eq!(extract_short_sn(line), None);
}

#[test]
fn hexadecimal_bytes_are_read() {
    assert_eq!(hex_to_bytes("").unwrap(), Vec::<u8>::new());
    assert_eq!(hex_to_bytes("00a5FF").unwrap(), vec![0x00, 0xA5, 0xFF]);
    assert_eq!(hex_to_bytes("+7").unwrap(), vec![7]);
    assert_eq!(hex_to_bytes("abc").unwrap_err(), "hex length must be even");
    assert_eq!(hex_to_bytes("0G").unwrap_err(), "invalid hex '0G': invalid digit found in string");
    assert_eq!(hex_to_bytes("00-1").unwrap_err(), "invalid hex '-1': invalid digit found in string");
    assert_eq!(hex_to_bytes("zé1").unwrap_err(), "invalid hex 'zé': invalid digit found in string");
}

#[test]
fn pairs_read_as_in_std() {
    let chars = ['0', '9', 'a', 'f', 'g', 'A', 'F', 'G', '+', '-', ' ', '@', '`'];
    for a in chars {
        for b in chars {
            let pair = format!("{a}{b}");
            match u8::from_str_radix(&pair, 16) {
                Ok(byte) => assert_eq!(hex_to_bytes(&pair).unwrap(), vec![byte]),
                Err(e) => {
                    assert_eq!(hex_to_bytes(&pair).unwrap_err(), format!("invalid hex '{pair}': {e}"))
                }
            }
        }
    }
}

#[test]
fn texts_that_break_off_are_told_apart() {
    assert!(hex_is_whole("") && hex_is_whole("a") && hex_is_whole("ab") && hex_is_whole("abc"));
    assert!(!hex_is_whole("é"));
    assert!(!hex_is_whole("12é"));
    assert!(hex_is_whole("zzé"));
    assert!(hex_is_whole("éé"));
}

#[test]
fn written_bytes_read_back() {
    let data: Vec<u8> = (0..=255).collect();
    let upper: String = data.iter().map(|b| format!("{:02X}", b)).collect();
    let lower: String = data.iter().map(|b| format!("{:02x}", b)).collect();
    assert!(hex_is_whole(&upper) && hex_is_whole(&lower));
    assert_eq!(hex_to_bytes(&upper).unwrap(), data);
    assert_eq!(hex_to_bytes(&lower).unwrap(), data);
}

#[test]
fn lines_stand_for_events() {
    let line = "SerialProtocolShortSN[42] FOX-RefereeSystem: SerialProtocolRequest[0A]\r\n";
    let events = events_of_line(line);
    assert_eq!(events.len(), 2);
    assert!(matches!(&events[0], Event::ShortSn(sn) if sn == "42"));
    assert!(matches!(&events[1], Event::ProtocolHex(hex) if hex == "0A"));
    assert!(events_of_line("\r\n").is_empty());
    assert!(events_of_line("I (1) boot\n").is_empty());
    let events = events_of_line("FOX-RefereeSystem: SerialProtocolRequest[0A]");
    assert!(matches!(&events[..], [Event::ProtocolHex(hex)] if hex == "0A"));
}

#[test]
fn commands_for_the_device() {
    assert_eq!(heartbeat_line(), b"referee heartbeat\n".to_vec());
    assert_eq!(send_line(&[0xA5, 0x00, 0x0f]), b"referee send A5000F\n".to_vec());
    assert_eq!(send_line(&[]), b"referee send \n".to_vec());
}

#[test]
fn commands_carry_the_data() {
    let data: Vec<u8> = vec![1, 0, 254, 77];
    let line = String::from_utf8(send_line(&data)).unwrap();
    let hex = &line[13..line.len() - 1];
    assert_eq!(hex_to_bytes(hex).unwrap(), data);
}

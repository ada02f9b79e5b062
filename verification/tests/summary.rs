use fox_tools::firmware::{AppDescription, FirmwareType, EXPECTED_MAGIC_WORD};
use fox_tools::summary::{
    firmware_summary, push_description, SummaryLine, ValueStyle, SUMMARY_BANNER,
};

/// A line as it is printed, without colors.
fn shown(line: &SummaryLine) -> String {
    match line {
        SummaryLine::Banner => SUMMARY_BANNER.to_string(),
        SummaryLine::Field { label, value, unit, .. } => format!("{label} {value}{unit}"),
        SummaryLine::Warning(text) => format!("W {text}"),
        SummaryLine::Error(text) => format!("E {text}"),
    }
}

fn all_shown(lines: &[SummaryLine]) -> Vec<String> {
    lines.iter().map(shown).collect()
}

#[test]
fn an_application_image_is_summed_up() {
    let mut image = vec![0u8; 0x20 + 208];
    image[0] = 0xE9;
    image[3] = 0x40;
    image[12] = 0x05;
    image[0x20..0x24].copy_from_slice(&EXPECTED_MAGIC_WORD.to_le_bytes());
    image[0x30..0x34].copy_from_slice(b"v1.0");
    image[0x50..0x53].copy_from_slice(b"fox");
    image[0x70..0x78].copy_from_slice(b"01:02:03");
    image[0x80..0x8b].copy_from_slice(b"Mar 10 2024");
    image[0x90..0x94].copy_from_slice(b"v5.1");
    let (lines, kind) = firmware_summary("a.bin", &image);
    assert!(matches!(kind, Some(FirmwareType::AppImage)));
    let expected = [
        SUMMARY_BANNER,
        "固件文件    : a.bin",
        "固件大小    : 240 字节",
        "固件预览    : E9 00 00 40 00 00 00 00 00 00 00 00 05 00 00 00 ...",
        "芯片类型    : ESP32-C3",
        "SPI大小     : 16 MB",
        "固件类型    : 应用固件",
        "安全版本    : 0 (防回滚)",
        "版本        : v1.0",
        "项目名称    : fox",
        "构建时间    : 2024-03-10 01:02:03",
        "IDF版本     : v5.1",
        "应用SHA256  : 0000000000000000000000000000000000000000000000000000000000000000",
        SUMMARY_BANNER,
    ];
    assert_eq!(all_shown(&lines), expected);
    assert!(matches!(lines[3], SummaryLine::Field { style: ValueStyle::Dim, .. }));
    assert!(matches!(lines[2], SummaryLine::Field { style: ValueStyle::Plain, .. }));
}

#[test]
fn an_unreadable_image_ends_in_an_error() {
    let (lines, kind) = firmware_summary("b.bin", &[1, 2]);
    assert!(kind.is_none());
    let expected = [
        SUMMARY_BANNER,
        "固件文件    : b.bin",
        "固件大小    : 2 字节",
        "固件预览    : 01 02",
        "W 无法从固件镜像中解析 esp_image_header_t。",
        "E 错误：无法从固件镜像中找到有效的 esp_app_desc_t。",
    ];
    assert_eq!(all_shown(&lines), expected);
}

#[test]
fn a_description_is_added_to_the_lines() {
    let desc = AppDescription {
        secure_version: 4,
        version: "v".to_string(),
        project_name: "p".to_string(),
        time: "noon".to_string(),
        date: "today".to_string(),
        idf_ver: "i".to_string(),
        app_elf_sha256: [0xab; 32],
    };
    let mut lines = vec![SummaryLine::Banner];
    push_description(&mut lines, desc, FirmwareType::FullImage);
    let expected = [
        SUMMARY_BANNER.to_string(),
        "固件类型    : 完整固件".to_string(),
        "安全版本    : 4 (防回滚)".to_string(),
        "版本        : v".to_string(),
        "项目名称    : p".to_string(),
        "构建时间    : today noon".to_string(),
        "IDF版本     : i".to_string(),
        format!("应用SHA256  : {}", "ab".repeat(32)),
    ];
    assert_eq!(all_shown(&lines), expected);
}

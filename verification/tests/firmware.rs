use fox_tools::firmware::{
    chip_id_from_header, firmware_type_label, flash_address, flash_address_text,
    parse_app_description, parse_image_header, read_cstring, read_u32_le, secure_version_text,
    sha256_text, to_hex_preview, FirmwareType, EXPECTED_MAGIC_WORD,
};

fn put(image: &mut [u8], at: usize, bytes: &[u8]) {
    image[at..at + bytes.len()].copy_from_slice(bytes);
}

fn image_with_description(base: usize) -> Vec<u8> {
    let mut image = vec![0u8; base + 208];
    put(&mut image, base, &EXPECTED_MAGIC_WORD.to_le_bytes());
    put(&mut image, base + 4, &7u32.to_le_bytes());
    put(&mut image, base + 16, b"v1.2.3\0junk");
    put(&mut image, base + 48, b"fox_vehicle");
    put(&mut image, base + 80, b"12:34:56");
    put(&mut image, base + 96, b"Jan  5 2025");
    put(&mut image, base + 112, b"0123456789abcdef0123456789ABCDEF");
    for i in 0..32 {
        image[base + 144 + i] = i as u8;
    }
    image
}

#[test]
fn little_endian_words() {
    assert_eq!(read_u32_le(&[0x32, 0x54, 0xCD, 0xAB]), 0xABCD_5432);
    assert_eq!(read_u32_le(&[0xff, 0xff, 0xff, 0xff, 0x00]), u32::MAX);
}

#[test]
fn fields_end_at_the_first_zero() {
    assert_eq!(read_cstring(b"abc\0def"), "abc");
    assert_eq!(read_cstring(b"abc"), "abc");
    assert_eq!(read_cstring(b"\0abc"), "");
    assert_eq!(read_cstring(b""), "");
    assert_eq!(read_cstring("你好\0".as_bytes()), "你好");
}

#[test]
fn nothing_behind_a_zero_byte_matters() {
    let fields: [&[u8]; 5] = [b"", b"abc", b"a\0b", &[b'a', 0xff, 0xfe], &[0xe4, 0, 0xbd]];
    for field in fields {
        for rest in fields {
            let mut longer = field.to_vec();
            longer.push(0);
            longer.extend_from_slice(rest);
            let text = read_cstring(&longer);
            assert_eq!(text, read_cstring(field));
            assert!(!text.contains('\0'));
        }
    }
}

#[test]
fn only_zero_bytes_would_give_a_nul_character() {
    for a in 1..=255u8 {
        for b in 1..=255u8 {
            assert!(!read_cstring(&[a, b, 0x80, a]).contains('\0'));
        }
    }
}

#[test]
fn invalid_bytes_are_replaced() {
    assert_eq!(read_cstring(&[b'a', 0xff, b'b', 0, b'c']), "a\u{fffd}b");
    assert_eq!(read_cstring(&[0xe4, 0xbd]), String::from_utf8_lossy(&[0xe4, 0xbd]));
}

#[test]
fn application_image_is_described() {
    let image = image_with_description(0x20);
    let (desc, kind) = parse_app_description(&image).unwrap();
    assert!(matches!(kind, FirmwareType::AppImage));
    assert_eq!(desc.secure_version, 7);
    assert_eq!(desc.version, "v1.2.3");
    assert_eq!(desc.project_name, "fox_vehicle");
    assert_eq!(desc.time, "12:34:56");
    assert_eq!(desc.date, "Jan  5 2025");
    assert_eq!(desc.idf_ver, "0123456789abcdef0123456789ABCDEF");
    assert_eq!(desc.app_elf_sha256[31], 31);
}

#[test]
fn full_image_holds_the_application() {
    let app = image_with_description(0x20);
    let mut full = vec![0xffu8; 0x10000];
    full.extend_from_slice(&app);
    let (desc, kind) = parse_app_description(&full).unwrap();
    assert!(matches!(kind, FirmwareType::FullImage));
    assert_eq!(desc.version, "v1.2.3");
    assert_eq!(desc.secure_version, 7);
}

#[test]
fn application_image_comes_first() {
    let mut full = image_with_description(0x10020);
    let app = image_with_description(0x20);
    full[..app.len()].copy_from_slice(&app);
    assert!(matches!(parse_app_description(&full), Some((_, FirmwareType::AppImage))));
}

#[test]
fn what_follows_the_description_does_not_matter() {
    let mut image = image_with_description(0x20);
    image.extend_from_slice(&[1, 2, 3]);
    assert_eq!(parse_app_description(&image).unwrap().0.version, "v1.2.3");
}

#[test]
fn broken_images_have_no_description() {
    assert!(parse_app_description(&[]).is_none());
    assert!(parse_app_description(&[0; 0x23]).is_none());
    assert!(parse_app_description(&[0; 0x20000]).is_none());
    let short = image_with_description(0x20);
    assert!(parse_app_description(&short[..short.len() - 1]).is_none());
    let short_full = image_with_description(0x10020);
    assert!(parse_app_description(&short_full[..short_full.len() - 1]).is_none());
    // A magic word at the first place decides, even when the image ends too early.
    let mut cut = image_with_description(0x20);
    cut.truncate(0x24);
    assert!(parse_app_description(&cut).is_none());
}

#[test]
fn headers_are_read() {
    let mut image = vec![0u8; 24];
    image[0] = 0xE9;
    image[3] = 0x2f;
    image[12] = 0x09;
    let header = parse_image_header(&image).unwrap();
    assert_eq!(header.chip_id, "ESP32-S3");
    assert_eq!(header.spi_size, "4 MB");
    for (code, size) in
        [(0x00, "1 MB"), (0x1f, "2 MB"), (0x30, "8 MB"), (0x4a, "16 MB"), (0x50, "未知 (代码 5)"), (0xf0, "未知 (代码 15)")]
    {
        image[3] = code;
        assert_eq!(parse_image_header(&image).unwrap().spi_size, size);
    }
    image[12] = 0x34;
    image[13] = 0x12;
    assert_eq!(parse_image_header(&image).unwrap().chip_id, "未知 (0x1234)");
    image[0] = 0xE8;
    assert!(parse_image_header(&image).is_none());
    image[0] = 0xE9;
    assert!(parse_image_header(&image[..23]).is_none());
    assert!(parse_image_header(&[]).is_none());
}

#[test]
fn chip_names() {
    let names = [
        (0x0000, "ESP32"), (0x0002, "ESP32-S2"), (0x0005, "ESP32-C3"), (0x0009, "ESP32-S3"),
        (0x000A, "ESP32-H2"), (0x000C, "ESP32-C2"), (0x000D, "ESP32-C6"), (0x0012, "ESP32-P4"),
        (0xFFFF, "无效"), (0x0001, "未知 (0x0001)"), (0xABCD, "未知 (0xABCD)"),
    ];
    for (chip, name) in names {
        assert_eq!(chip_id_from_header(chip), name);
    }
}

#[test]
fn previews() {
    assert_eq!(to_hex_preview(&[], 16), "");
    assert_eq!(to_hex_preview(&[0xE9], 16), "E9");
    assert_eq!(to_hex_preview(&[0xE9, 0x06, 0x02], 3), "E9 06 02");
    assert_eq!(to_hex_preview(&[0xE9, 0x06, 0x02], 2), "E9 06 ...");
    assert_eq!(to_hex_preview(&[1, 2], 0), " ...");
}

#[test]
fn addresses_and_labels() {
    assert_eq!(flash_address(FirmwareType::AppImage), 0x10000);
    assert_eq!(flash_address(FirmwareType::FullImage), 0);
    assert_eq!(flash_address_text(0x10000), "0x00010000");
    assert_eq!(flash_address_text(0), "0x00000000");
    assert_eq!(firmware_type_label(FirmwareType::AppImage), "应用固件");
    assert_eq!(firmware_type_label(FirmwareType::FullImage), "完整固件");
    assert_eq!(secure_version_text(3), "3 (防回滚)");
    let mut sha = [0u8; 32];
    sha[0] = 0xAB;
    sha[31] = 0x0c;
    assert_eq!(sha256_text(&sha), format!("ab{}0c", "00".repeat(30)));
}

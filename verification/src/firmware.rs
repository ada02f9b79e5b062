//! ESP32 firmware images: the image header and the application description.

use crate::numbers::{
    decimal, decimal_text, hex_digits, hex_of_bytes, law_hex_is_digit_by_digit, push_decimal,
    push_hex, push_hex_of_bytes,
};
use vstd::arithmetic::power2::{lemma2_to64, pow2};
use vstd::prelude::*;
use vstd::string::*;
use vstd::slice::slice_subrange;
use vstd::utf8::*;

verus! {

/// The first word of an application description.
pub const EXPECTED_MAGIC_WORD: u32 = 0xABCD_5432;

/// Where the description stands in an application image.
pub const APP_IMAGE_DESC_OFFSET: usize = 0x20;

/// Where the description stands in a full flash image.
pub const FULL_IMAGE_APP_DESC_OFFSET: usize = 0x10020;

/// How many bytes a description takes.
pub const APP_DESC_SIZE: usize = 208;

/// How many bytes an image header takes.
pub const HEADER_SIZE: usize = 24;

/// The first byte of an image header.
pub const HEADER_MAGIC: u8 = 0xE9;

/// The application description of a firmware image.
///
/// The description holds, in order: the magic word, the security version, two
/// reserved words, the version (32 bytes), the project name (32), the time of
/// the build (16), its date (16), the version of the SDK (32), the SHA-256 of
/// the executable (32) and eight reserved words.
#[derive(Debug)]
pub struct AppDescription {
    pub secure_version: u32,
    pub version: String,
    pub project_name: String,
    pub time: String,
    pub date: String,
    pub idf_ver: String,
    pub app_elf_sha256: [u8; 32],
}

/// What an image holds.
#[derive(Debug, Copy, Clone)]
pub enum FirmwareType {
    /// The application alone.
    AppImage,
    /// The whole flash, from the boot loader on.
    FullImage,
}

/// The parts of the image header that are shown.
#[derive(Debug)]
pub struct ImageHeader {
    pub chip_id: String,
    pub spi_size: String,
}

/// An application description as values of the specification.
pub struct DescriptionView {
    pub secure_version: nat,
    pub version: Seq<char>,
    pub project_name: Seq<char>,
    pub time: Seq<char>,
    pub date: Seq<char>,
    pub idf_ver: Seq<char>,
    pub app_elf_sha256: Seq<u8>,
}

impl View for AppDescription {
    type V = DescriptionView;

    open spec fn view(&self) -> DescriptionView {
        DescriptionView {
            secure_version: self.secure_version as nat,
            version: self.version@,
            project_name: self.project_name@,
            time: self.time@,
            date: self.date@,
            idf_ver: self.idf_ver@,
            app_elf_sha256: self.app_elf_sha256@,
        }
    }
}

// ---------------------------------------------------------------------------
// Fields
// ---------------------------------------------------------------------------

/// The number in the four bytes of `s` from `at` on, lowest byte first.
pub open spec fn le32(s: Seq<u8>, at: int) -> nat {
    (s[at] + 0x100 * s[at + 1] + 0x1_0000 * s[at + 2] + 0x100_0000 * s[at + 3]) as nat
}

/// Reads a 32-bit number, lowest byte first, from the first four bytes.
pub fn read_u32_le(bytes: &[u8]) -> (n: u32)
    requires
        bytes@.len() >= 4,
    ensures
        n == le32(bytes@, 0),
{
    bytes[0] as u32 + 0x100 * (bytes[1] as u32) + 0x1_0000 * (bytes[2] as u32) + 0x100_0000 * (
    bytes[3] as u32)
}

/// Each of the four bytes of a number can be read back from it, the lowest first.
pub proof fn law_word_holds_its_bytes(s: Seq<u8>, at: int)
    ensures
        le32(s, at) < 0x1_0000_0000,
        le32(s, at) % 0x100 == s[at],
        le32(s, at) / 0x100 % 0x100 == s[at + 1],
        le32(s, at) / 0x1_0000 % 0x100 == s[at + 2],
        le32(s, at) / 0x100_0000 == s[at + 3],
{
}

/// How many bytes stand before the first zero byte, or before the end.
pub open spec fn c_len(buf: Seq<u8>) -> nat
    decreases buf.len(),
{
    if buf.len() == 0 || buf[0] == 0 {
        0
    } else {
        1 + c_len(buf.drop_first())
    }
}

/// The bytes before the first zero byte, or all of them when there is none.
pub open spec fn c_prefix(buf: Seq<u8>) -> Seq<u8> {
    buf.take(c_len(buf) as int)
}

/// The prefix ends before the first zero byte, or at the end.
proof fn lemma_c_len(buf: Seq<u8>)
    ensures
        c_len(buf) <= buf.len(),
        forall|i: int| 0 <= i < c_len(buf) ==> buf[i] != 0,
        c_len(buf) < buf.len() ==> buf[c_len(buf) as int] == 0,
    decreases buf.len(),
{
    if buf.len() > 0 && buf[0] != 0 {
        let rest = buf.drop_first();
        lemma_c_len(rest);
        assert forall|i: int| 0 <= i < c_len(buf) implies buf[i] != 0 by {
            if i > 0 {
                assert(rest[i - 1] != 0);
            }
        }
    }
}

/// The text that `String::from_utf8_lossy` reads in `bytes`.
pub uninterp spec fn lossy_text(bytes: Seq<u8>) -> Seq<char>;

/// `String::from_utf8_lossy` reads bytes as UTF-8. Its result depends on the
/// bytes alone; bytes that are valid UTF-8 are decoded as such, and invalid ones
/// are replaced by U+FFFD, so a NUL character comes from a zero byte only. How
/// many replacement characters stand in for invalid bytes is left unsaid.
#[verifier::external_body]
fn decode_lossy(bytes: &[u8]) -> (text: String)
    ensures
        text@ == lossy_text(bytes@),
        valid_utf8(bytes@) ==> text@ == decode_utf8(bytes@),
        !bytes@.contains(0u8) ==> !text@.contains('\0'),
{
    String::from_utf8_lossy(bytes).to_string()
}

/// True when `text` is what the field `raw` spells; no NUL character is in it.
pub open spec fn is_field_text(text: Seq<char>, raw: Seq<u8>) -> bool {
    &&& text == lossy_text(c_prefix(raw))
    &&& valid_utf8(c_prefix(raw)) ==> text == decode_utf8(c_prefix(raw))
    &&& !text.contains('\0')
}

/// Reads a text field that a zero byte ends.
pub fn read_cstring(buf: &[u8]) -> (text: String)
    ensures
        is_field_text(text@, buf@),
        !text@.contains('\0'),
{
    let mut end: usize = 0;
    while end < buf.len() && buf[end] != 0
        invariant
            end <= buf.len(),
            forall|i: int| 0 <= i < end ==> buf@[i] != 0,
        decreases buf.len() - end,
    {
        end = end + 1;
    }
    proof {
        lemma_c_len(buf@);
        let n = c_len(buf@) as int;
        if n < end {
            assert(buf@[n] != 0);
        }
        assert(c_prefix(buf@) =~= buf@.subrange(0, end as int));
        assert(!c_prefix(buf@).contains(0u8));
    }
    decode_lossy(slice_subrange(buf, 0, end))
}

/// What is read of a field is its start, holds no zero byte, and ends before a zero byte or
/// with the field.
pub proof fn law_field_is_read_up_to_zero(field: Seq<u8>)
    ensures
        ({
            let read = c_prefix(field);
            &&& read.len() <= field.len()
            &&& read == field.take(read.len() as int)
            &&& !read.contains(0u8)
            &&& read.len() < field.len() ==> field[read.len() as int] == 0
        }),
{
    lemma_c_len(field);
}

/// Nothing behind a zero byte matters: a field spells what it spells without the zero
/// byte and all that follows it. A field without a zero byte is read to its end.
pub proof fn law_field_ends_at_zero(field: Seq<u8>, rest: Seq<u8>)
    ensures
        c_prefix(field + seq![0u8] + rest) == c_prefix(field),
        forall|text: Seq<char>| #[trigger]
            is_field_text(text, field + seq![0u8] + rest) <==> is_field_text(text, field),
        !field.contains(0u8) ==> c_prefix(field) == field,
{
    lemma_c_len(field);
    let longer = field + seq![0u8] + rest;
    lemma_c_len(longer);
    let n = c_len(field) as int;
    let m = c_len(longer) as int;
    assert(longer[field.len() as int] == 0);
    if n < field.len() {
        assert(longer[n] == field[n]);
        assert(field.contains(0u8));
    }
    if m < n {
        assert(longer[m] == field[m]);
    } else if n < m {
        assert(longer[n] != 0);
    }
    assert(c_prefix(longer) =~= c_prefix(field));
    if n == field.len() {
        assert(c_prefix(field) =~= field);
    }
}

/// A field that holds a text in UTF-8, to its end or up to a zero byte, spells that text.
pub proof fn law_utf8_field_text(text: Seq<char>, chars: Seq<char>, rest: Seq<u8>)
    requires
        !encode_utf8(chars).contains(0u8),
        is_field_text(text, encode_utf8(chars)) || is_field_text(
            text,
            encode_utf8(chars) + seq![0u8] + rest,
        ),
    ensures
        text == chars,
{
    law_field_ends_at_zero(encode_utf8(chars), rest);
    encode_utf8_valid_utf8(chars);
    encode_utf8_decode_utf8(chars);
}

/// A field of ASCII bytes spells them one character for each.
pub proof fn law_ascii_field_text(text: Seq<char>, raw: Seq<u8>)
    requires
        is_field_text(text, raw),
        forall|i: int| 0 <= i < c_prefix(raw).len() ==> #[trigger] c_prefix(raw)[i] < 0x80,
    ensures
        text == Seq::new(c_prefix(raw).len(), |i: int| c_prefix(raw)[i] as char),
{
    let bytes = c_prefix(raw);
    let chars = Seq::new(bytes.len(), |i: int| bytes[i] as char);
    assert(is_ascii_chars(chars));
    is_ascii_chars_encode_utf8(chars);
    assert forall|i: int| 0 <= i < bytes.len() implies encode_utf8(chars)[i] == bytes[i] by {
        assert(chars[i] as u8 == encode_utf8(chars)[i]);
    }
    assert(encode_utf8(chars) =~= bytes);
    encode_utf8_valid_utf8(chars);
    encode_utf8_decode_utf8(chars);
}

// ---------------------------------------------------------------------------
// The application description
// ---------------------------------------------------------------------------

/// True when the magic word stands in `image` at `at`.
pub open spec fn has_magic(image: Seq<u8>, at: int) -> bool {
    image.len() >= at + 4 && le32(image, at) == EXPECTED_MAGIC_WORD
}

/// Where the description of an image of type `t` stands.
pub open spec fn desc_offset(t: FirmwareType) -> int {
    match t {
        FirmwareType::AppImage => APP_IMAGE_DESC_OFFSET as int,
        FirmwareType::FullImage => FULL_IMAGE_APP_DESC_OFFSET as int,
    }
}

/// What `image` holds, by where the magic word stands; an application image comes first.
pub open spec fn firmware_type_of(image: Seq<u8>) -> Option<FirmwareType> {
    if has_magic(image, desc_offset(FirmwareType::AppImage)) {
        Some(FirmwareType::AppImage)
    } else if has_magic(image, desc_offset(FirmwareType::FullImage)) {
        Some(FirmwareType::FullImage)
    } else {
        None
    }
}

/// `len` bytes of the description at `base`, from `from` on.
pub open spec fn desc_field(image: Seq<u8>, base: int, from: int, len: int) -> Seq<u8> {
    image.subrange(base + from, base + from + len)
}

/// The description that stands in `image` at `base`.
pub open spec fn description_at(image: Seq<u8>, base: int) -> DescriptionView {
    DescriptionView {
        secure_version: le32(image, base + 4),
        version: lossy_text(c_prefix(desc_field(image, base, 16, 32))),
        project_name: lossy_text(c_prefix(desc_field(image, base, 48, 32))),
        time: lossy_text(c_prefix(desc_field(image, base, 80, 16))),
        date: lossy_text(c_prefix(desc_field(image, base, 96, 16))),
        idf_ver: lossy_text(c_prefix(desc_field(image, base, 112, 32))),
        app_elf_sha256: desc_field(image, base, 144, 32),
    }
}

/// The description of `image` and what the image holds, when the whole description is there.
pub open spec fn app_description(image: Seq<u8>) -> Option<(DescriptionView, FirmwareType)> {
    match firmware_type_of(image) {
        Some(t) => if image.len() >= desc_offset(t) + APP_DESC_SIZE {
            Some((description_at(image, desc_offset(t)), t))
        } else {
            None
        },
        None => None,
    }
}

/// Tests whether the magic word stands in `image` at `at`.
fn magic_stands_at(image: &[u8], at: usize) -> (r: bool)
    requires
        at + 4 <= usize::MAX,
    ensures
        r == has_magic(image@, at as int),
{
    if image.len() >= at + 4 {
        let word = slice_subrange(image, at, at + 4);
        read_u32_le(word) == EXPECTED_MAGIC_WORD
    } else {
        false
    }
}

/// Copies 32 bytes.
fn copy_32(bytes: &[u8]) -> (out: [u8; 32])
    requires
        bytes@.len() == 32,
    ensures
        out@ == bytes@,
{
    let mut out: [u8; 32] = [0;32];
    for i in 0..32usize
        invariant
            bytes@.len() == 32,
            forall|j: int| 0 <= j < i ==> out@[j] == bytes@[j],
    {
        out[i] = bytes[i];
    }
    assert(out@ =~= bytes@);
    out
}

/// Reads the application description of `image` and finds out what the image holds.
///
/// Gives nothing when the magic word stands at neither place, or when the image
/// ends before the description does.
pub fn parse_app_description(image: &[u8]) -> (out: Option<(AppDescription, FirmwareType)>)
    ensures
        match out {
            Some((desc, t)) => {
                &&& app_description(image@) == Some((desc@, t))
                &&& desc.secure_version == le32(image@, desc_offset(t) + 4)
                &&& forall|i: int|
                    0 <= i < 32 ==> #[trigger] desc.app_elf_sha256@[i] == image@[desc_offset(t) + 144
                        + i]
                &&& is_field_text(desc.version@, desc_field(image@, desc_offset(t), 16, 32))
                &&& is_field_text(desc.project_name@, desc_field(image@, desc_offset(t), 48, 32))
                &&& is_field_text(desc.time@, desc_field(image@, desc_offset(t), 80, 16))
                &&& is_field_text(desc.date@, desc_field(image@, desc_offset(t), 96, 16))
                &&& is_field_text(desc.idf_ver@, desc_field(image@, desc_offset(t), 112, 32))
            },
            None => app_description(image@) is None,
        },
{
    let is_app_image = magic_stands_at(image, APP_IMAGE_DESC_OFFSET);
    let is_full_image = !is_app_image && magic_stands_at(image, FULL_IMAGE_APP_DESC_OFFSET);
    let (base_offset, firmware_type) = if is_app_image {
        (APP_IMAGE_DESC_OFFSET, FirmwareType::AppImage)
    } else if is_full_image {
        (FULL_IMAGE_APP_DESC_OFFSET, FirmwareType::FullImage)
    } else {
        return None;
    };
    if image.len() < base_offset + APP_DESC_SIZE {
        return None;
    }
    let desc_bytes = slice_subrange(image, base_offset, base_offset + APP_DESC_SIZE);
    let secure_version = read_u32_le(slice_subrange(desc_bytes, 4, 8));
    let version_raw = slice_subrange(desc_bytes, 16, 48);
    let project_name_raw = slice_subrange(desc_bytes, 48, 80);
    let time_raw = slice_subrange(desc_bytes, 80, 96);
    let date_raw = slice_subrange(desc_bytes, 96, 112);
    let idf_ver_raw = slice_subrange(desc_bytes, 112, 144);
    let app_elf_sha256_raw = slice_subrange(desc_bytes, 144, 176);
    proof {
        let base = base_offset as int;
        assert(version_raw@ =~= desc_field(image@, base, 16, 32));
        assert(project_name_raw@ =~= desc_field(image@, base, 48, 32));
        assert(time_raw@ =~= desc_field(image@, base, 80, 16));
        assert(date_raw@ =~= desc_field(image@, base, 96, 16));
        assert(idf_ver_raw@ =~= desc_field(image@, base, 112, 32));
        assert(app_elf_sha256_raw@ =~= desc_field(image@, base, 144, 32));
    }
    Some(
        (
            AppDescription {
                secure_version,
                version: read_cstring(version_raw),
                project_name: read_cstring(project_name_raw),
                time: read_cstring(time_raw),
                date: read_cstring(date_raw),
                idf_ver: read_cstring(idf_ver_raw),
                app_elf_sha256: copy_32(app_elf_sha256_raw),
            },
            firmware_type,
        ),
    )
}

/// True when the four bytes of the magic word stand in `image` at `at`.
pub open spec fn magic_bytes_at(image: Seq<u8>, at: int) -> bool {
    image.len() >= at + 4 && image.subrange(at, at + 4) == seq![0x32u8, 0x54u8, 0xCDu8, 0xABu8]
}

/// The magic word is these four bytes.
proof fn lemma_magic_bytes(image: Seq<u8>, at: int)
    requires
        0 <= at,
    ensures
        has_magic(image, at) <==> magic_bytes_at(image, at),
{
    if image.len() >= at + 4 {
        let word = image.subrange(at, at + 4);
        assert(word[0] == image[at] && word[1] == image[at + 1]);
        assert(word[2] == image[at + 2] && word[3] == image[at + 3]);
        if has_magic(image, at) {
            assert(word =~= seq![0x32u8, 0x54u8, 0xCDu8, 0xABu8]);
        }
        if magic_bytes_at(image, at) {
            assert(word[0] == 0x32 && word[1] == 0x54 && word[2] == 0xCD && word[3] == 0xAB);
        }
    }
}

/// A description is read from the bytes of the image: it starts with the bytes of the magic
/// word at `0x20`, or else at `0x10020`, where its 208 bytes are all there. Byte `i` of
/// its SHA-256 is byte `144 + i` behind the start, its security version is in the four bytes
/// from `4` on, and its texts stand in the fields from `16`, `48`, `80`, `96` and `112` on.
pub proof fn law_description_stands_in_the_image(image: Seq<u8>)
    ensures
        app_description(image) matches Some((desc, t)) ==> {
            let base: int = if t is AppImage {
                0x20
            } else {
                0x10020
            };
            &&& magic_bytes_at(image, base)
            &&& t is FullImage ==> !magic_bytes_at(image, 0x20)
            &&& image.len() >= base + 208
            &&& desc.secure_version % 0x100 == image[base + 4]
            &&& desc.secure_version / 0x100 % 0x100 == image[base + 5]
            &&& desc.secure_version / 0x1_0000 % 0x100 == image[base + 6]
            &&& desc.secure_version / 0x100_0000 == image[base + 7]
            &&& desc.version == lossy_text(c_prefix(image.subrange(base + 16, base + 48)))
            &&& desc.project_name == lossy_text(c_prefix(image.subrange(base + 48, base + 80)))
            &&& desc.time == lossy_text(c_prefix(image.subrange(base + 80, base + 96)))
            &&& desc.date == lossy_text(c_prefix(image.subrange(base + 96, base + 112)))
            &&& desc.idf_ver == lossy_text(c_prefix(image.subrange(base + 112, base + 144)))
            &&& desc.app_elf_sha256.len() == 32
            &&& forall|i: int|
                0 <= i < 32 ==> #[trigger] desc.app_elf_sha256[i] == image[base + 144 + i]
        },
        app_description(image) is None <==> if magic_bytes_at(image, 0x20) {
            image.len() < 0x20 + 208
        } else {
            !magic_bytes_at(image, 0x10020) || image.len() < 0x10020 + 208
        },
{
    lemma_magic_bytes(image, 0x20);
    lemma_magic_bytes(image, 0x10020);
}

/// Bytes behind a complete description do not change what is read.
pub proof fn law_description_ignores_what_follows(image: Seq<u8>, more: Seq<u8>)
    requires
        app_description(image) is Some,
    ensures
        app_description(image + more) == app_description(image),
{
    let t = firmware_type_of(image)->0;
    let base = desc_offset(t);
    let longer = image + more;
    assert(le32(longer, base) == le32(image, base));
    if t is FullImage {
        assert(le32(longer, 0x20) == le32(image, 0x20));
    }
    assert(desc_field(longer, base, 16, 32) =~= desc_field(image, base, 16, 32));
    assert(desc_field(longer, base, 48, 32) =~= desc_field(image, base, 48, 32));
    assert(desc_field(longer, base, 80, 16) =~= desc_field(image, base, 80, 16));
    assert(desc_field(longer, base, 96, 16) =~= desc_field(image, base, 96, 16));
    assert(desc_field(longer, base, 112, 32) =~= desc_field(image, base, 112, 32));
    assert(desc_field(longer, base, 144, 32) =~= desc_field(image, base, 144, 32));
}

/// An application image reads the same inside a full flash image, where it stands
/// behind the first `0x10000` bytes, as long as those do not look like an application
/// image themselves.
pub proof fn law_full_image_holds_the_same_description(boot: Seq<u8>, app: Seq<u8>)
    requires
        boot.len() == 0x10000,
        !has_magic(boot, 0x20),
        app_description(app) matches Some((_, FirmwareType::AppImage)),
    ensures
        app_description(app) matches Some((desc, _)) && app_description(boot + app) == Some(
            (desc, FirmwareType::FullImage),
        ),
{
    let full = boot + app;
    assert(le32(full, 0x20) == le32(boot, 0x20));
    assert(le32(full, 0x10020) == le32(app, 0x20));
    assert(le32(full, 0x10024) == le32(app, 0x24));
    assert(desc_field(full, 0x10020, 16, 32) =~= desc_field(app, 0x20, 16, 32));
    assert(desc_field(full, 0x10020, 48, 32) =~= desc_field(app, 0x20, 48, 32));
    assert(desc_field(full, 0x10020, 80, 16) =~= desc_field(app, 0x20, 80, 16));
    assert(desc_field(full, 0x10020, 96, 16) =~= desc_field(app, 0x20, 96, 16));
    assert(desc_field(full, 0x10020, 112, 32) =~= desc_field(app, 0x20, 112, 32));
    assert(desc_field(full, 0x10020, 144, 32) =~= desc_field(app, 0x20, 144, 32));
}

// ---------------------------------------------------------------------------
// The image header
// ---------------------------------------------------------------------------

/// The name of the chip with the number `chip`.
pub open spec fn chip_name(chip: u16) -> Seq<char> {
    if chip == 0x0000 {
        "ESP32"@
    } else if chip == 0x0002 {
        "ESP32-S2"@
    } else if chip == 0x0005 {
        "ESP32-C3"@
    } else if chip == 0x0009 {
        "ESP32-S3"@
    } else if chip == 0x000A {
        "ESP32-H2"@
    } else if chip == 0x000C {
        "ESP32-C2"@
    } else if chip == 0x000D {
        "ESP32-C6"@
    } else if chip == 0x0012 {
        "ESP32-P4"@
    } else if chip == 0xFFFF {
        "无效"@
    } else {
        "未知 (0x"@ + hex_digits(chip as nat, 4, true) + ")"@
    }
}

/// A chip that is not known is shown by its number: four hexadecimal digits, the highest
/// first. So two such chips are never shown alike.
pub proof fn law_unknown_chip_shows_its_number(chip: u16)
    requires
        !(seq![0x0u16, 0x2, 0x5, 0x9, 0xA, 0xC, 0xD, 0x12, 0xFFFF].contains(chip)),
    ensures
        ({
            let row = "0123456789ABCDEF"@;
            chip_name(chip) == "未知 (0x"@ + seq![
                row[chip as int / 0x1000],
                row[chip as int / 0x100 % 0x10],
                row[chip as int / 0x10 % 0x10],
                row[chip as int % 0x10],
            ] + ")"@
        }),
{
    let known = seq![0x0u16, 0x2, 0x5, 0x9, 0xA, 0xC, 0xD, 0x12, 0xFFFF];
    assert(known[0] == 0x0 && known[1] == 0x2 && known[2] == 0x5 && known[3] == 0x9);
    assert(known[4] == 0xA && known[5] == 0xC && known[6] == 0xD && known[7] == 0x12);
    assert(known[8] == 0xFFFF);
    let n = chip as nat;
    let row = "0123456789ABCDEF"@;
    law_hex_is_digit_by_digit(0, n / 0x1000, 0);
    law_hex_is_digit_by_digit(n / 0x1000, n / 0x100 % 0x10, 1);
    law_hex_is_digit_by_digit(n / 0x100, n / 0x10 % 0x10, 2);
    law_hex_is_digit_by_digit(n / 0x10, n % 0x10, 3);
    assert(16 * (n / 0x1000) + n / 0x100 % 0x10 == n / 0x100);
    assert(16 * (n / 0x100) + n / 0x10 % 0x10 == n / 0x10);
    assert(16 * (n / 0x10) + n % 0x10 == n);
    assert(hex_digits(n, 4, true) =~= seq![
        row[chip as int / 0x1000],
        row[chip as int / 0x100 % 0x10],
        row[chip as int / 0x10 % 0x10],
        row[chip as int % 0x10],
    ]);
}

/// Names the chip with the number `chip`.
pub fn chip_id_from_header(chip: u16) -> (name: String)
    ensures
        name@ == chip_name(chip),
{
    match chip {
        0x0000 => "ESP32".to_string(),
        0x0002 => "ESP32-S2".to_string(),
        0x0005 => "ESP32-C3".to_string(),
        0x0009 => "ESP32-S3".to_string(),
        0x000A => "ESP32-H2".to_string(),
        0x000C => "ESP32-C2".to_string(),
        0x000D => "ESP32-C6".to_string(),
        0x0012 => "ESP32-P4".to_string(),
        0xFFFF => "无效".to_string(),
        other => {
            let mut name = "未知 (0x".to_string();
            push_hex(&mut name, other as u64, 4, true);
            name.append(")");
            name
        },
    }
}

/// The flash size that the code `code` stands for.
pub open spec fn flash_size_name(code: nat) -> Seq<char> {
    if code == 0 {
        "1 MB"@
    } else if code == 1 {
        "2 MB"@
    } else if code == 2 {
        "4 MB"@
    } else if code == 3 {
        "8 MB"@
    } else if code == 4 {
        "16 MB"@
    } else {
        "未知 (代码 "@ + decimal(code) + ")"@
    }
}

/// The first five codes stand for the powers of two in megabytes, from one on; any other
/// code is shown as it is.
pub proof fn law_flash_size_doubles(code: nat)
    ensures
        code < 5 ==> flash_size_name(code) == decimal(pow2(code)) + " MB"@,
        code >= 5 ==> flash_size_name(code) == "未知 (代码 "@ + decimal(code) + ")"@,
{
    lemma2_to64();
    reveal_strlit(" MB");
    reveal_strlit("1 MB");
    reveal_strlit("2 MB");
    reveal_strlit("4 MB");
    reveal_strlit("8 MB");
    reveal_strlit("16 MB");
    reveal_with_fuel(decimal, 3);
    if code < 5 {
        assert(flash_size_name(code) =~= decimal(pow2(code)) + " MB"@);
    }
}

/// The chip and the flash size that the header of `image` names, when it has one.
///
/// The flash size is in the high half of the byte at 3, the number of the chip in
/// the two bytes from 12 on, lowest byte first.
pub open spec fn image_header(image: Seq<u8>) -> Option<(Seq<char>, Seq<char>)> {
    if image.len() >= HEADER_SIZE && image[0] == HEADER_MAGIC {
        Some(
            (
                chip_name((image[12] + 0x100 * image[13]) as u16),
                flash_size_name((image[3] / 16) as nat),
            ),
        )
    } else {
        None
    }
}

/// Reads the header of `image`.
///
/// Gives nothing when the image is shorter than a header or does not start with its magic byte.
pub fn parse_image_header(image: &[u8]) -> (out: Option<ImageHeader>)
    ensures
        match out {
            Some(header) => image_header(image@) == Some((header.chip_id@, header.spi_size@)),
            None => image_header(image@) is None,
        },
{
    if image.len() < HEADER_SIZE {
        return None;
    }
    if image[0] != HEADER_MAGIC {
        return None;
    }
    let packed = image[3];
    let spi_size_code = packed >> 4;
    assert(packed >> 4 == packed / 16) by (bit_vector);
    let spi_size = match spi_size_code {
        0 => "1 MB".to_string(),
        1 => "2 MB".to_string(),
        2 => "4 MB".to_string(),
        3 => "8 MB".to_string(),
        4 => "16 MB".to_string(),
        code => {
            let mut name = "未知 (代码 ".to_string();
            push_decimal(&mut name, code as u64);
            name.append(")");
            name
        },
    };
    let chip_id_raw = image[12] as u16 + 0x100 * (image[13] as u16);
    let chip_id = chip_id_from_header(chip_id_raw);
    Some(ImageHeader { chip_id, spi_size })
}

/// A header that was written for a chip and a flash size is read as that chip and that
/// size, whatever else it holds; an image that is too short or starts otherwise has none.
pub proof fn law_header_reads_back(image: Seq<u8>, chip: u16, code: nat)
    ensures
        image.len() >= 24 && image[0] == 0xE9 && image[3] / 16 == code && image[12] == chip % 0x100
            && image[13] == chip / 0x100 ==> image_header(image) == Some(
            (chip_name(chip), flash_size_name(code)),
        ),
        image_header(image) is None <==> image.len() < 24 || image[0] != 0xE9,
{
    if image.len() >= 24 && image[12] == chip % 0x100 && image[13] == chip / 0x100 {
        assert(image[12] + 0x100 * image[13] == chip);
    }
}

// ---------------------------------------------------------------------------
// What is shown, and where an image is written
// ---------------------------------------------------------------------------

/// The bytes in upper-case hexadecimal, with a space between two of them.
pub open spec fn hex_spaced(data: Seq<u8>) -> Seq<char>
    decreases data.len(),
{
    if data.len() == 0 {
        Seq::empty()
    } else if data.len() == 1 {
        hex_digits(data[0] as nat, 2, true)
    } else {
        hex_spaced(data.drop_last()) + seq![' '] + hex_digits(data.last() as nat, 2, true)
    }
}

/// The first `max_len` bytes in hexadecimal, with dots behind them when there are more.
pub open spec fn hex_preview(data: Seq<u8>, max_len: nat) -> Seq<char> {
    if data.len() > max_len {
        hex_spaced(data.take(max_len as int)) + " ..."@
    } else {
        hex_spaced(data)
    }
}

/// Byte `i` of what is shown stands at `3 * i` with its two hexadecimal digits, a space sets
/// it off from the next, and dots at the end say that there is more.
pub proof fn law_preview_shows_the_first_bytes(data: Seq<u8>, max_len: nat)
    ensures
        ({
            let row = "0123456789ABCDEF"@;
            let shown: nat = if data.len() < max_len {
                data.len()
            } else {
                max_len
            };
            let text = hex_preview(data, max_len);
            let len: int = if shown == 0 {
                0
            } else {
                3 * shown - 1
            };
            &&& forall|i: int|
                #![trigger data[i]]
                0 <= i < shown ==> text[3 * i] == row[data[i] as int / 16] && text[3 * i + 1]
                    == row[data[i] as int % 16]
            &&& forall|i: int| 1 <= i < shown ==> text[#[trigger] (3 * i) - 1] == ' '
            &&& text.skip(len) == if data.len() > max_len {
                " ..."@
            } else {
                Seq::empty()
            }
            &&& text.len() >= len
        }),
{
    let shown: nat = if data.len() < max_len {
        data.len()
    } else {
        max_len
    };
    let first = data.take(shown as int);
    lemma_hex_spaced(first);
    assert(data.len() <= max_len ==> first =~= data);
    let text = hex_preview(data, max_len);
    let bytes = hex_spaced(first);
    let len: int = if shown == 0 {
        0
    } else {
        3 * shown - 1
    };
    let tail = if data.len() > max_len {
        " ..."@
    } else {
        Seq::empty()
    };
    assert(text =~= bytes + tail);
    assert(text.skip(len) =~= tail);
    assert forall|i: int| #![trigger data[i]] 0 <= i < shown implies text[3 * i]
        == "0123456789ABCDEF"@[data[i] as int / 16] && text[3 * i + 1]
        == "0123456789ABCDEF"@[data[i] as int % 16] by {
        assert(first[i] == data[i]);
    }
}

/// Where the bytes stand when a space is between two of them.
proof fn lemma_hex_spaced(data: Seq<u8>)
    ensures
        data.len() == 0 ==> hex_spaced(data).len() == 0,
        data.len() > 0 ==> hex_spaced(data).len() == 3 * data.len() - 1,
        forall|i: int|
            #![trigger data[i]]
            0 <= i < data.len() ==> hex_spaced(data)[3 * i] == "0123456789ABCDEF"@[data[i] as int
                / 16] && hex_spaced(data)[3 * i + 1] == "0123456789ABCDEF"@[data[i] as int % 16],
        forall|i: int| 1 <= i < data.len() ==> hex_spaced(data)[#[trigger] (3 * i) - 1] == ' ',
    decreases data.len(),
{
    if data.len() > 0 {
        let front = data.drop_last();
        lemma_hex_spaced(front);
        let last = data.last() as nat;
        law_hex_is_digit_by_digit(0, last / 16, 0);
        law_hex_is_digit_by_digit(last / 16, last % 16, 1);
        assert(16 * (last / 16) + last % 16 == last);
        assert forall|i: int| #![trigger data[i]] 0 <= i < data.len() implies hex_spaced(data)[3
            * i] == "0123456789ABCDEF"@[data[i] as int / 16] && hex_spaced(data)[3 * i + 1]
            == "0123456789ABCDEF"@[data[i] as int % 16] by {
            if i < front.len() {
                assert(data[i] == front[i]);
            }
        }
        assert forall|i: int| 1 <= i < data.len() implies hex_spaced(data)[#[trigger] (3 * i) - 1]
            == ' ' by {
            if i < front.len() {
                assert(hex_spaced(front)[(3 * i) - 1] == ' ');
            }
        }
    }
}

/// Shows the first `max_len` bytes of `data` in hexadecimal.
pub fn to_hex_preview(data: &[u8], max_len: usize) -> (s: String)
    ensures
        s@ == hex_preview(data@, max_len as nat),
{
    let take_len = if data.len() < max_len {
        data.len()
    } else {
        max_len
    };
    let mut s = String::new();
    proof {
        assert(data@.take(0) =~= Seq::<u8>::empty());
    }
    for i in 0..take_len
        invariant
            take_len <= data.len(),
            s@ == hex_spaced(data@.take(i as int)),
    {
        let ghost before = s@;
        if i > 0 {
            s.push(' ');
        }
        push_hex(&mut s, data[i] as u64, 2, true);
        proof {
            assert(data@.take(i + 1).drop_last() =~= data@.take(i as int));
            if i == 0 {
                assert(before =~= Seq::<char>::empty());
            }
            assert(s@ =~= hex_spaced(data@.take(i + 1)));
        }
    }
    if data.len() > take_len {
        s.append(" ...");
    } else {
        assert(data@.take(take_len as int) =~= data@);
    }
    s
}

/// The flash address at which an image of type `t` is written.
pub open spec fn flash_address_of(t: FirmwareType) -> nat {
    match t {
        FirmwareType::AppImage => 0x10000,
        FirmwareType::FullImage => 0,
    }
}

/// The flash address at which an image of this type is written.
pub fn flash_address(t: FirmwareType) -> (addr: u32)
    ensures
        addr == flash_address_of(t),
{
    match t {
        FirmwareType::AppImage => 0x10000,
        FirmwareType::FullImage => 0x0,
    }
}

/// Whichever type an image has, its description ends up at the same flash address.
pub proof fn law_description_lands_at_one_address(t: FirmwareType)
    ensures
        flash_address_of(t) + desc_offset(t) == 0x10020,
{
}

/// A flash address as it is shown: eight hexadecimal digits behind `0x`.
pub fn flash_address_text(addr: u32) -> (text: String)
    ensures
        text@ == "0x"@ + hex_digits(addr as nat, 8, true),
{
    let mut text = "0x".to_string();
    push_hex(&mut text, addr as u64, 8, true);
    text
}

/// The label of a firmware type.
pub open spec fn firmware_type_name(t: FirmwareType) -> Seq<char> {
    match t {
        FirmwareType::AppImage => "应用固件"@,
        FirmwareType::FullImage => "完整固件"@,
    }
}

/// Names a firmware type.
pub fn firmware_type_label(t: FirmwareType) -> (label: &'static str)
    ensures
        label@ == firmware_type_name(t),
{
    match t {
        FirmwareType::AppImage => "应用固件",
        FirmwareType::FullImage => "完整固件",
    }
}

/// The security version as it is shown.
pub fn secure_version_text(secure_version: u32) -> (text: String)
    ensures
        text@ == decimal(secure_version as nat) + " (防回滚)"@,
{
    let mut text = decimal_text(secure_version as u64);
    text.append(" (防回滚)");
    text
}

/// The SHA-256 of the executable in lower-case hexadecimal.
pub fn sha256_text(sha256: &[u8; 32]) -> (text: String)
    ensures
        text@ == hex_of_bytes(sha256@, false),
{
    let mut text = String::new();
    push_hex_of_bytes(&mut text, sha256.as_slice(), false);
    assert(text@ =~= hex_of_bytes(sha256@, false));
    text
}

} // verus!

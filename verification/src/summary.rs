//! What is shown of a firmware image before it is written.

use crate::build_time::{build_time, build_time_text};
use crate::firmware::{
    app_description, firmware_type_label, firmware_type_name, hex_preview, image_header,
    parse_app_description, parse_image_header, secure_version_text, sha256_text, to_hex_preview,
    AppDescription, DescriptionView, FirmwareType,
};
use crate::numbers::{decimal, decimal_text, hex_of_bytes};
use vstd::prelude::*;
use vstd::string::*;

verus! {

/// What stands before the summary and behind it.
pub const SUMMARY_BANNER: &'static str = "============================== 固件摘要 ==============================";

/// How many bytes of the image are shown.
pub const PREVIEW_LEN: usize = 16;

/// The ways in which the value of a field is shown.
#[derive(Debug, Clone, Copy, PartialEq, Eq, Structural)]
pub enum ValueStyle {
    Plain,
    Dim,
}

/// A line of the summary.
#[derive(Debug)]
pub enum SummaryLine {
    /// The banner.
    Banner,
    /// A field: its label, its value and what stands behind the value.
    Field { label: &'static str, value: String, unit: &'static str, style: ValueStyle },
    /// A warning; the summary goes on.
    Warning(&'static str),
    /// An error; the image is not written.
    Error(&'static str),
}

/// A line of the summary, as values of the specification.
pub enum LineView {
    Banner,
    Field { label: Seq<char>, value: Seq<char>, unit: Seq<char>, style: ValueStyle },
    Warning(Seq<char>),
    Error(Seq<char>),
}

impl View for SummaryLine {
    type V = LineView;

    open spec fn view(&self) -> LineView {
        match self {
            SummaryLine::Banner => LineView::Banner,
            SummaryLine::Field { label, value, unit, style } => LineView::Field {
                label: label@,
                value: value@,
                unit: unit@,
                style: *style,
            },
            SummaryLine::Warning(text) => LineView::Warning(text@),
            SummaryLine::Error(text) => LineView::Error(text@),
        }
    }
}

/// Lines as values of the specification.
pub open spec fn line_views(lines: Seq<SummaryLine>) -> Seq<LineView> {
    Seq::new(lines.len(), |i: int| lines[i]@)
}

/// A field with nothing behind its value.
pub open spec fn plain_field(label: Seq<char>, value: Seq<char>) -> LineView {
    LineView::Field { label, value, unit: ""@, style: ValueStyle::Plain }
}

/// The lines on the file.
pub open spec fn file_lines(path: Seq<char>, data: Seq<u8>) -> Seq<LineView> {
    seq![
        plain_field("固件文件    :"@, path),
        LineView::Field {
            label: "固件大小    :"@,
            value: decimal(data.len()),
            unit: " 字节"@,
            style: ValueStyle::Plain,
        },
        LineView::Field {
            label: "固件预览    :"@,
            value: hex_preview(data, PREVIEW_LEN as nat),
            unit: ""@,
            style: ValueStyle::Dim,
        },
    ]
}

/// The lines on the image header.
pub open spec fn header_lines(data: Seq<u8>) -> Seq<LineView> {
    match image_header(data) {
        Some((chip_id, spi_size)) => seq![
            plain_field("芯片类型    :"@, chip_id),
            plain_field("SPI大小     :"@, spi_size),
        ],
        None => seq![LineView::Warning("无法从固件镜像中解析 esp_image_header_t。"@)],
    }
}

/// The lines on the application description.
pub open spec fn description_lines(desc: DescriptionView, t: FirmwareType) -> Seq<LineView> {
    seq![
        plain_field("固件类型    :"@, firmware_type_name(t)),
        plain_field("安全版本    :"@, decimal(desc.secure_version) + " (防回滚)"@),
        plain_field("版本        :"@, desc.version),
        plain_field("项目名称    :"@, desc.project_name),
        plain_field("构建时间    :"@, build_time(desc.date, desc.time)),
        plain_field("IDF版本     :"@, desc.idf_ver),
        plain_field("应用SHA256  :"@, hex_of_bytes(desc.app_elf_sha256, false)),
    ]
}

/// The summary of the image `data` in the file `path`: banner, file, header and description,
/// then the banner again; without a description, an error in place of what follows.
pub open spec fn summary_of(path: Seq<char>, data: Seq<u8>) -> Seq<LineView> {
    let front = seq![LineView::Banner] + file_lines(path, data) + header_lines(data);
    match app_description(data) {
        Some((desc, t)) => front + description_lines(desc, t) + seq![LineView::Banner],
        None => front + seq![
            LineView::Error("错误：无法从固件镜像中找到有效的 esp_app_desc_t。"@),
        ],
    }
}

/// Adds a line.
fn push_line(lines: &mut Vec<SummaryLine>, line: SummaryLine)
    ensures
        line_views(final(lines)@) == line_views(old(lines)@).push(line@),
{
    let ghost before = line_views(lines@);
    lines.push(line);
    assert(line_views(lines@) =~= before.push(line@));
}

/// Adds a field with nothing behind its value.
fn push_field(lines: &mut Vec<SummaryLine>, label: &'static str, value: String)
    ensures
        line_views(final(lines)@) == line_views(old(lines)@).push(plain_field(label@, value@)),
{
    push_line(lines, SummaryLine::Field { label, value, unit: "", style: ValueStyle::Plain });
}

/// Adds the lines on the image header.
fn push_header(lines: &mut Vec<SummaryLine>, data: &[u8])
    ensures
        line_views(final(lines)@) == line_views(old(lines)@) + header_lines(data@),
{
    let ghost before = line_views(lines@);
    match parse_image_header(data) {
        Some(header) => {
            push_field(lines, "芯片类型    :", header.chip_id);
            push_field(lines, "SPI大小     :", header.spi_size);
        },
        None => {
            push_line(lines, SummaryLine::Warning("无法从固件镜像中解析 esp_image_header_t。"));
        },
    }
    assert(line_views(lines@) =~= before + header_lines(data@));
}

/// Adds the lines on the application description.
pub fn push_description(lines: &mut Vec<SummaryLine>, desc: AppDescription, t: FirmwareType)
    ensures
        line_views(final(lines)@) == line_views(old(lines)@) + description_lines(desc@, t),
{
    let ghost before = line_views(lines@);
    let ghost view = desc@;
    push_field(lines, "固件类型    :", firmware_type_label(t).to_string());
    push_field(lines, "安全版本    :", secure_version_text(desc.secure_version));
    let built = build_time_text(desc.date.as_str(), desc.time.as_str());
    push_field(lines, "版本        :", desc.version);
    push_field(lines, "项目名称    :", desc.project_name);
    push_field(lines, "构建时间    :", built);
    push_field(lines, "IDF版本     :", desc.idf_ver);
    push_field(lines, "应用SHA256  :", sha256_text(&desc.app_elf_sha256));
    assert(line_views(lines@) =~= before + description_lines(view, t));
}

/// Writes the summary of the image `data` in the file `path`, and finds out what the image
/// holds. An image without a description is not to be written.
pub fn firmware_summary(path: &str, data: &[u8]) -> (out: (
    Vec<SummaryLine>,
    Option<FirmwareType>,
))
    ensures
        line_views(out.0@) == summary_of(path@, data@),
        match app_description(data@) {
            Some((_, t)) => out.1 == Some(t),
            None => out.1 is None,
        },
{
    let mut lines: Vec<SummaryLine> = Vec::new();
    assert(line_views(lines@) =~= Seq::<LineView>::empty());
    push_line(&mut lines, SummaryLine::Banner);
    push_field(&mut lines, "固件文件    :", path.to_string());
    push_line(
        &mut lines,
        SummaryLine::Field {
            label: "固件大小    :",
            value: decimal_text(data.len() as u64),
            unit: " 字节",
            style: ValueStyle::Plain,
        },
    );
    push_line(
        &mut lines,
        SummaryLine::Field {
            label: "固件预览    :",
            value: to_hex_preview(data, PREVIEW_LEN),
            unit: "",
            style: ValueStyle::Dim,
        },
    );
    assert(line_views(lines@) =~= seq![LineView::Banner] + file_lines(path@, data@));
    push_header(&mut lines, data);
    let ghost front = line_views(lines@);
    match parse_app_description(data) {
        Some((desc, t)) => {
            push_description(&mut lines, desc, t);
            let ghost before = line_views(lines@);
            push_line(&mut lines, SummaryLine::Banner);
            assert(line_views(lines@) =~= before + seq![LineView::Banner]);
            (lines, Some(t))
        },
        None => {
            push_line(
                &mut lines,
                SummaryLine::Error("错误：无法从固件镜像中找到有效的 esp_app_desc_t。"),
            );
            assert(line_views(lines@) =~= front + seq![
                LineView::Error("错误：无法从固件镜像中找到有效的 esp_app_desc_t。"@),
            ]);
            (lines, None)
        },
    }
}

/// Every line of a summary is seen with its whole label and its whole value.
pub proof fn law_lines_are_seen_whole(lines: Seq<SummaryLine>, i: int)
    requires
        0 <= i < lines.len(),
    ensures
        line_views(lines).len() == lines.len(),
        match lines[i] {
            SummaryLine::Banner => line_views(lines)[i] is Banner,
            SummaryLine::Field { label, value, unit, style } => line_views(lines)[i] == (
            LineView::Field { label: label@, value: value@, unit: unit@, style }),
            SummaryLine::Warning(text) => line_views(lines)[i] == LineView::Warning(text@),
            SummaryLine::Error(text) => line_views(lines)[i] == LineView::Error(text@),
        },
{
}

/// A plain field with this label and this value.
pub open spec fn shows(line: LineView, label: Seq<char>, value: Seq<char>) -> bool {
    line == (LineView::Field { label, value, unit: ""@, style: ValueStyle::Plain })
}

/// A summary shows the path and the size of the file, its first sixteen bytes, the chip and
/// the flash size of its header, and every field of its description, each whole and under
/// its label.
pub proof fn law_summary_shows_everything(path: Seq<char>, data: Seq<u8>)
    ensures
        ({
            let s = summary_of(path, data);
            &&& s.len() >= 6
            &&& s[0] is Banner
            &&& shows(s[1], "固件文件    :"@, path)
            &&& s[2] == (LineView::Field {
                label: "固件大小    :"@,
                value: decimal(data.len()),
                unit: " 字节"@,
                style: ValueStyle::Plain,
            })
            &&& s[3] == (LineView::Field {
                label: "固件预览    :"@,
                value: hex_preview(data, 16),
                unit: ""@,
                style: ValueStyle::Dim,
            })
            &&& image_header(data) matches Some((chip_id, spi_size)) ==> shows(
                s[4],
                "芯片类型    :"@,
                chip_id,
            ) && shows(s[5], "SPI大小     :"@, spi_size)
            &&& image_header(data) is None ==> s[4] is Warning
            &&& app_description(data) matches Some((desc, t)) ==> {
                let n = if image_header(data) is Some {
                    6int
                } else {
                    5
                };
                &&& s.len() == n + 8
                &&& shows(s[n], "固件类型    :"@, firmware_type_name(t))
                &&& shows(s[n + 1], "安全版本    :"@, decimal(desc.secure_version) + " (防回滚)"@)
                &&& shows(s[n + 2], "版本        :"@, desc.version)
                &&& shows(s[n + 3], "项目名称    :"@, desc.project_name)
                &&& shows(s[n + 4], "构建时间    :"@, build_time(desc.date, desc.time))
                &&& shows(s[n + 5], "IDF版本     :"@, desc.idf_ver)
                &&& shows(s[n + 6], "应用SHA256  :"@, hex_of_bytes(desc.app_elf_sha256, false))
                &&& s[n + 7] is Banner
            }
        }),
{
    let front = seq![LineView::Banner] + file_lines(path, data) + header_lines(data);
    let s = summary_of(path, data);
    assert(forall|i: int| 0 <= i < front.len() ==> s[i] == front[i]);
}

/// A summary shows an error, as its last line, exactly when the image has no description.
pub proof fn law_error_ends_the_summary(path: Seq<char>, data: Seq<u8>)
    ensures
        summary_of(path, data).last() is Error <==> app_description(data) is None,
        forall|i: int|
            0 <= i < summary_of(path, data).len() - 1 ==> !(#[trigger] summary_of(
                path,
                data,
            )[i] is Error),
{
    let front = seq![LineView::Banner] + file_lines(path, data) + header_lines(data);
    let all = summary_of(path, data);
    assert forall|i: int| 0 <= i < front.len() implies !(#[trigger] front[i] is Error) by {
        if i == 0 {
        } else if i < 4 {
            assert(front[i] == file_lines(path, data)[i - 1]);
        } else {
            assert(front[i] == header_lines(data)[i - 4]);
        }
    }
    assert forall|i: int| 0 <= i < all.len() - 1 implies !(#[trigger] all[i] is Error) by {
        if i < front.len() {
            assert(all[i] == front[i]);
        } else if let Some((desc, t)) = app_description(data) {
            assert(all[i] == description_lines(desc, t)[i - front.len()]);
        }
    }
}

} // verus!

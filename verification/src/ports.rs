//! Serial ports: which are offered, how they are shown and how one is chosen.

use crate::numbers::{
    decimal, hex_digits, law_decimal_reads_back, law_unsigned_numbers_read,
    lemma_decimal_is_a_word, parse_unsigned, parsed_unsigned, push_decimal, push_hex, spells,
};
use crate::text::{
    all_space, has_prefix, law_text_starts_and_ends, law_trim_strips_space, starts_with, trim,
    trimmed, CharClass,
};
use vstd::prelude::*;
use vstd::string::*;

verus! {

/// How long to wait before the ports are listed again, in seconds.
pub const RESCAN_DELAY_SECS: u64 = 2;

/// The speed of the serial line, in baud.
pub const BAUD_RATE: u32 = 115_200;

/// What a USB device says of itself.
#[derive(Debug)]
pub struct UsbInfo {
    pub vid: u16,
    pub pid: u16,
    pub serial_number: Option<String>,
    pub manufacturer: Option<String>,
    pub product: Option<String>,
}

/// What a serial port hangs on.
#[derive(Debug)]
pub enum PortKind {
    Usb(UsbInfo),
    Pci,
    Bluetooth,
    Unknown,
}

/// A serial port.
#[derive(Debug)]
pub struct PortInfo {
    pub name: String,
    pub kind: PortKind,
}

/// What a USB device says of itself, as values of the specification.
pub struct UsbView {
    pub vid: u16,
    pub pid: u16,
    pub serial_number: Option<Seq<char>>,
    pub manufacturer: Option<Seq<char>>,
    pub product: Option<Seq<char>>,
}

/// What a serial port hangs on, as values of the specification.
pub enum KindView {
    Usb(UsbView),
    Pci,
    Bluetooth,
    Unknown,
}

/// A serial port as values of the specification.
pub struct PortView {
    pub name: Seq<char>,
    pub kind: KindView,
}

/// A text that may be missing, as values of the specification.
pub open spec fn text_view(text: Option<String>) -> Option<Seq<char>> {
    match text {
        Some(t) => Some(t@),
        None => None,
    }
}

impl View for UsbInfo {
    type V = UsbView;

    open spec fn view(&self) -> UsbView {
        UsbView {
            vid: self.vid,
            pid: self.pid,
            serial_number: text_view(self.serial_number),
            manufacturer: text_view(self.manufacturer),
            product: text_view(self.product),
        }
    }
}

impl View for PortKind {
    type V = KindView;

    open spec fn view(&self) -> KindView {
        match self {
            PortKind::Usb(info) => KindView::Usb(info@),
            PortKind::Pci => KindView::Pci,
            PortKind::Bluetooth => KindView::Bluetooth,
            PortKind::Unknown => KindView::Unknown,
        }
    }
}

impl View for PortInfo {
    type V = PortView;

    open spec fn view(&self) -> PortView {
        PortView { name: self.name@, kind: self.kind@ }
    }
}

/// Ports as values of the specification.
pub open spec fn port_views(ports: Seq<PortInfo>) -> Seq<PortView> {
    Seq::new(ports.len(), |i: int| ports[i]@)
}

/// Every port of a list is seen under its whole name and with all that its USB device says
/// of itself.
pub proof fn law_ports_are_seen_whole(ports: Seq<PortInfo>, i: int)
    requires
        0 <= i < ports.len(),
    ensures
        port_views(ports).len() == ports.len(),
        port_views(ports)[i].name == ports[i].name@,
        match ports[i].kind {
            PortKind::Usb(info) => port_views(ports)[i].kind matches KindView::Usb(seen) && {
                &&& seen.vid == info.vid
                &&& seen.pid == info.pid
                &&& info.serial_number matches Some(sn) ==> seen.serial_number == Some(sn@)
                &&& info.serial_number is None ==> seen.serial_number is None
                &&& info.manufacturer matches Some(m) ==> seen.manufacturer == Some(m@)
                &&& info.manufacturer is None ==> seen.manufacturer is None
                &&& info.product matches Some(p) ==> seen.product == Some(p@)
                &&& info.product is None ==> seen.product is None
            },
            PortKind::Pci => port_views(ports)[i].kind is Pci,
            PortKind::Bluetooth => port_views(ports)[i].kind is Bluetooth,
            PortKind::Unknown => port_views(ports)[i].kind is Unknown,
        },
{
}

/// Copies a text that may be missing.
fn copy_text(text: &Option<String>) -> (out: Option<String>)
    ensures
        text_view(out) == text_view(*text),
{
    match text {
        Some(t) => Some(t.clone()),
        None => None,
    }
}

impl Clone for UsbInfo {
    fn clone(&self) -> (out: Self)
        ensures
            out@ == self@,
    {
        UsbInfo {
            vid: self.vid,
            pid: self.pid,
            serial_number: copy_text(&self.serial_number),
            manufacturer: copy_text(&self.manufacturer),
            product: copy_text(&self.product),
        }
    }
}

impl Clone for PortKind {
    fn clone(&self) -> (out: Self)
        ensures
            out@ == self@,
    {
        match self {
            PortKind::Usb(info) => PortKind::Usb(info.clone()),
            PortKind::Pci => PortKind::Pci,
            PortKind::Bluetooth => PortKind::Bluetooth,
            PortKind::Unknown => PortKind::Unknown,
        }
    }
}

impl Clone for PortInfo {
    fn clone(&self) -> (out: Self)
        ensures
            out@ == self@,
    {
        PortInfo { name: self.name.clone(), kind: self.kind.clone() }
    }
}

// ---------------------------------------------------------------------------
// Which ports are offered
// ---------------------------------------------------------------------------

/// True of a port that the operating system lists twice: on macOS the `tty` twin of a port.
pub open spec fn is_ignored(port: PortView, macos: bool) -> bool {
    macos && starts_with(port.name, "/dev/tty."@)
}

/// Tests whether a port is the `tty` twin that macOS lists beside each port.
pub fn is_ignored_port(port: &PortInfo, macos: bool) -> (r: bool)
    ensures
        r == is_ignored(port@, macos),
{
    macos && has_prefix(port.name.as_str(), "/dev/tty.")
}

/// The ports on USB that are not ignored.
pub open spec fn usb_and_not_ignored(macos: bool) -> spec_fn(PortView) -> bool {
    |p: PortView| p.kind is Usb && !is_ignored(p, macos)
}

/// The places of the elements of a list that are kept, in order: each is the place of a kept
/// element, and no kept element is left out.
pub open spec fn are_places_of_kept(
    at: Seq<int>,
    list: Seq<PortView>,
    keep: spec_fn(PortView) -> bool,
) -> bool {
    &&& forall|k: int| 0 <= k < at.len() ==> 0 <= #[trigger] at[k] < list.len() && keep(list[at[k]])
    &&& forall|j: int, k: int| 0 <= j < k < at.len() ==> #[trigger] at[j] < #[trigger] at[k]
    &&& forall|i: int| 0 <= i < list.len() && keep(#[trigger] list[i]) ==> at.contains(i)
}

/// A filtered list holds the kept elements from their places.
proof fn lemma_filter_places(list: Seq<PortView>, keep: spec_fn(PortView) -> bool) -> (at: Seq<int>)
    ensures
        are_places_of_kept(at, list, keep),
        list.filter(keep).len() == at.len(),
        forall|k: int| 0 <= k < at.len() ==> #[trigger] list.filter(keep)[k] == list[at[k]],
    decreases list.len(),
{
    reveal(Seq::filter);
    if list.len() == 0 {
        Seq::empty()
    } else {
        let front = list.drop_last();
        let before = lemma_filter_places(front, keep);
        let n = list.len() - 1;
        let at = if keep(list.last()) {
            before.push(n)
        } else {
            before
        };
        assert forall|k: int| 0 <= k < at.len() implies 0 <= #[trigger] at[k] < list.len() && keep(
            list[at[k]],
        ) by {
            if k < before.len() {
                assert(at[k] == before[k]);
                assert(front[before[k]] == list[before[k]]);
            }
        }
        assert forall|j: int, k: int| 0 <= j < k < at.len() implies #[trigger] at[j]
            < #[trigger] at[k] by {
            assert(at[j] == before[j]);
            if k < before.len() {
                assert(at[k] == before[k]);
            }
        }
        assert forall|i: int| 0 <= i < list.len() && keep(#[trigger] list[i]) implies at.contains(
            i,
        ) by {
            if i < n {
                assert(front[i] == list[i]);
                let k = choose|k: int| 0 <= k < before.len() && before[k] == i;
                assert(at[k] == i);
            } else {
                assert(at[before.len() as int] == i);
            }
        }
        assert forall|k: int| 0 <= k < at.len() implies #[trigger] list.filter(keep)[k]
            == list[at[k]] by {
            if k < before.len() {
                assert(front.filter(keep)[k] == front[before[k]]);
                assert(at[k] == before[k]);
            }
        }
        at
    }
}

/// The forwarder sees every listed USB port, in the order of the list and as often as it is
/// listed, but for those on macOS whose name is `/dev/tty.` and something more; it sees no
/// other port.
pub proof fn law_every_usb_port_is_discovered(ports: Seq<PortView>, macos: bool) -> (at: Seq<int>)
    ensures
        forall|p: PortView| #[trigger]
            usb_and_not_ignored(macos)(p) <==> p.kind is Usb && !(macos && exists|rest: Seq<char>|
                p.name == #[trigger] ("/dev/tty."@ + rest)),
        are_places_of_kept(at, ports, usb_and_not_ignored(macos)),
        ports.filter(usb_and_not_ignored(macos)).len() == at.len(),
        forall|k: int|
            0 <= k < at.len() ==> #[trigger] ports.filter(usb_and_not_ignored(macos))[k]
                == ports[at[k]],
{
    assert forall|p: PortView| #[trigger]
        usb_and_not_ignored(macos)(p) <==> p.kind is Usb && !(macos && exists|rest: Seq<char>|
            p.name == #[trigger] ("/dev/tty."@ + rest)) by {
        law_text_starts_and_ends(p.name, "/dev/tty."@);
    }
    lemma_filter_places(ports, usb_and_not_ignored(macos))
}

/// Keeps the USB ports, in order, without the twins that macOS lists.
pub fn discover_usb_ports(ports: &Vec<PortInfo>, macos: bool) -> (out: Vec<PortInfo>)
    ensures
        port_views(out@) == port_views(ports@).filter(usb_and_not_ignored(macos)),
{
    let mut out: Vec<PortInfo> = Vec::new();
    let ghost all = port_views(ports@);
    let ghost keep = usb_and_not_ignored(macos);
    proof {
        reveal(Seq::filter);
        assert(all.take(0) =~= Seq::<PortView>::empty());
        assert(port_views(out@) =~= all.take(0).filter(keep));
    }
    for i in 0..ports.len()
        invariant
            all == port_views(ports@),
            keep == usb_and_not_ignored(macos),
            port_views(out@) == all.take(i as int).filter(keep),
    {
        let port = &ports[i];
        let ghost before = port_views(out@);
        let kept = match &port.kind {
            PortKind::Usb(_) => !is_ignored_port(port, macos),
            _ => false,
        };
        proof {
            reveal(Seq::filter);
            assert(all.take(i + 1).drop_last() =~= all.take(i as int));
            assert(all[i as int] == port@);
        }
        if kept {
            out.push(port.clone());
            assert(port_views(out@) =~= before.push(port@));
        }
    }
    assert(all.take(ports.len() as int) =~= all);
    out
}

/// The ports on USB.
pub open spec fn on_usb() -> spec_fn(PortView) -> bool {
    |p: PortView| p.kind is Usb
}

/// Keeps the USB ports, in order.
pub fn usb_ports(ports: &Vec<PortInfo>) -> (out: Vec<PortInfo>)
    ensures
        port_views(out@) == port_views(ports@).filter(on_usb()),
{
    assert(usb_and_not_ignored(false) =~= on_usb());
    discover_usb_ports(ports, false)
}

// ---------------------------------------------------------------------------
// How a port is shown
// ---------------------------------------------------------------------------

/// The vendor and the product of a USB device in hexadecimal.
pub open spec fn usb_ids(info: UsbView) -> Seq<char> {
    "VID: 0x"@ + hex_digits(info.vid as nat, 4, true) + ", PID: 0x"@ + hex_digits(
        info.pid as nat,
        4,
        true,
    )
}

/// Shows the vendor and the product of a USB device.
pub fn usb_ids_text(info: &UsbInfo) -> (text: String)
    ensures
        text@ == usb_ids(info@),
{
    let mut text = "VID: 0x".to_string();
    push_hex(&mut text, info.vid as u64, 4, true);
    text.append(", PID: 0x");
    push_hex(&mut text, info.pid as u64, 4, true);
    text
}

/// The serial number of a USB port, or `missing` where there is none.
pub open spec fn serial_number_or(kind: KindView, missing: Seq<char>) -> Seq<char> {
    match kind {
        KindView::Usb(info) => match info.serial_number {
            Some(sn) => sn,
            None => missing,
        },
        _ => missing,
    }
}

/// Gives the serial number of a USB port, or `missing` where there is none.
pub fn serial_number<'a>(kind: &'a PortKind, missing: &'a str) -> (sn: &'a str)
    ensures
        sn@ == serial_number_or(kind@, missing@),
{
    match kind {
        PortKind::Usb(info) => match &info.serial_number {
            Some(sn) => sn.as_str(),
            None => missing,
        },
        _ => missing,
    }
}

/// A port as it is shown when it is the only one.
pub open spec fn single_text(port: PortView) -> Seq<char> {
    match port.kind {
        KindView::Usb(info) => port.name + " ("@ + usb_ids(info) + ")"@,
        _ => port.name,
    }
}

/// Shows the only port.
pub fn single_port_text(port: &PortInfo) -> (text: String)
    ensures
        text@ == single_text(port@),
{
    let mut text = port.name.clone();
    match &port.kind {
        PortKind::Usb(info) => {
            text.append(" (");
            let ids = usb_ids_text(info);
            text.append(ids.as_str());
            text.append(")");
        },
        _ => {},
    }
    text
}

/// A port as it is shown in the list from which one is chosen.
pub open spec fn entry_text(i: nat, port: PortView) -> Seq<char> {
    let front = decimal(i) + ": "@ + port.name;
    match port.kind {
        KindView::Usb(info) => front + " ("@ + usb_ids(info) + ", SN: "@ + serial_number_or(
            port.kind,
            "未知"@,
        ) + ")"@,
        _ => front,
    }
}

/// Shows a port in the list from which one is chosen.
pub fn port_entry_text(i: usize, port: &PortInfo) -> (text: String)
    ensures
        text@ == entry_text(i as nat, port@),
{
    let mut text = String::new();
    push_decimal(&mut text, i as u64);
    text.append(": ");
    text.append(port.name.as_str());
    assert(text@ =~= decimal(i as nat) + ": "@ + port.name@);
    match &port.kind {
        PortKind::Usb(info) => {
            text.append(" (");
            let ids = usb_ids_text(info);
            text.append(ids.as_str());
            text.append(", SN: ");
            text.append(serial_number(&port.kind, "未知"));
            text.append(")");
        },
        _ => {},
    }
    text
}

/// The list from which a port is chosen.
pub open spec fn entry_texts(ports: Seq<PortView>) -> Seq<Seq<char>> {
    Seq::new(ports.len(), |i: int| entry_text(i as nat, ports[i]))
}

/// Texts as values of the specification.
pub open spec fn string_views(lines: Seq<String>) -> Seq<Seq<char>> {
    Seq::new(lines.len(), |i: int| lines[i]@)
}

/// Shows the list from which a port is chosen.
fn port_entry_texts(ports: &Vec<PortInfo>) -> (lines: Vec<String>)
    ensures
        string_views(lines@) == entry_texts(port_views(ports@)),
{
    let mut lines: Vec<String> = Vec::new();
    for i in 0..ports.len()
        invariant
            lines.len() == i,
            forall|j: int|
                0 <= j < i ==> (#[trigger] lines@[j])@ == entry_text(j as nat, ports@[j]@),
    {
        lines.push(port_entry_text(i, &ports[i]));
    }
    assert(string_views(lines@) =~= entry_texts(port_views(ports@)));
    lines
}

/// What is shown of a port holds its number in the list, its whole name, its vendor and
/// product in four hexadecimal digits, and its whole serial number.
pub proof fn law_port_is_shown_whole(i: nat, port: PortView, info: UsbView)
    requires
        port.kind == KindView::Usb(info),
    ensures
        ({
            let ids = "VID: 0x"@ + hex_digits(info.vid as nat, 4, true) + ", PID: 0x"@ + hex_digits(
                info.pid as nat,
                4,
                true,
            );
            let sn = match info.serial_number {
                Some(sn) => sn,
                None => "未知"@,
            };
            &&& entry_text(i, port) == decimal(i) + ": "@ + port.name + " ("@ + ids + ", SN: "@ + sn
                + ")"@
            &&& single_text(port) == port.name + " ("@ + ids + ")"@
            &&& found_parts(port) == ("发现新的USB串口设备:"@, Some((" ("@ + ids + ", SN: "@, sn)))
        }),
{
}

/// Of a port that is not on USB the name is shown, and its number in the list.
pub proof fn law_other_port_is_shown_by_name(i: nat, port: PortView)
    requires
        !(port.kind is Usb),
    ensures
        entry_text(i, port) == decimal(i) + ": "@ + port.name,
        single_text(port) == port.name,
        found_parts(port) == ("发现设备:"@, None::<(Seq<char>, Seq<char>)>),
{
}

/// The serial number of a USB port is given whole; where there is none, and for other ports,
/// the text for a missing one is given.
pub proof fn law_serial_number_is_given_whole(info: UsbView, kind: KindView, missing: Seq<char>)
    ensures
        info.serial_number matches Some(sn) ==> serial_number_or(KindView::Usb(info), missing) == sn,
        info.serial_number is None ==> serial_number_or(KindView::Usb(info), missing) == missing,
        !(kind is Usb) ==> serial_number_or(kind, missing) == missing,
{
}

/// A port as it is shown when the user is asked whether to connect it: what stands before
/// its name, and what stands behind the name up to the serial number.
pub open spec fn found_parts(port: PortView) -> (Seq<char>, Option<(Seq<char>, Seq<char>)>) {
    match port.kind {
        KindView::Usb(info) => (
            "发现新的USB串口设备:"@,
            Some((" ("@ + usb_ids(info) + ", SN: "@, serial_number_or(port.kind, "未知"@))),
        ),
        _ => ("发现设备:"@, None),
    }
}

/// Shows a port when the user is asked whether to connect it. Behind the serial number
/// stands a closing bracket.
pub fn found_port_parts(port: &PortInfo) -> (out: (&'static str, Option<(String, String)>))
    ensures
        found_parts(port@).0 == out.0@,
        match out.1 {
            Some((front, sn)) => found_parts(port@).1 == Some((front@, sn@)),
            None => found_parts(port@).1 is None,
        },
{
    match &port.kind {
        PortKind::Usb(info) => {
            let mut front = " (".to_string();
            let ids = usb_ids_text(info);
            front.append(ids.as_str());
            front.append(", SN: ");
            let sn = serial_number(&port.kind, "未知").to_string();
            ("发现新的USB串口设备:", Some((front, sn)))
        },
        _ => ("发现设备:", None),
    }
}

/// What is said when a port cannot be opened for `reason`.
pub fn open_failure_text(port_name: &str, reason: &str) -> (text: String)
    ensures
        text@ == "打开串口 '"@ + port_name@ + "' 失败："@ + reason@,
{
    let mut text = "打开串口 '".to_string();
    text.append(port_name);
    text.append("' 失败：");
    text.append(reason);
    text
}

/// What is said when the ports cannot be listed for `reason`.
pub fn list_failure_text(reason: &str) -> (text: String)
    ensures
        text@ == "列出串口失败："@ + reason@,
{
    let mut text = "列出串口失败：".to_string();
    text.append(reason);
    text
}

// ---------------------------------------------------------------------------
// How a port is chosen
// ---------------------------------------------------------------------------

/// What follows from a list of ports.
#[derive(Debug)]
pub enum Survey {
    /// No port is on USB: list them again after a while.
    NoneFound,
    /// One port is on USB: it is taken, and shown as `text`.
    Single { port: PortInfo, text: String },
    /// Several ports are on USB: the user chooses from `lines`.
    Several { ports: Vec<PortInfo>, lines: Vec<String> },
}

/// What follows from a list of ports, as values of the specification.
pub enum SurveyView {
    NoneFound,
    Single { port: PortView, text: Seq<char> },
    Several { ports: Seq<PortView>, lines: Seq<Seq<char>> },
}

impl View for Survey {
    type V = SurveyView;

    open spec fn view(&self) -> SurveyView {
        match self {
            Survey::NoneFound => SurveyView::NoneFound,
            Survey::Single { port, text } => SurveyView::Single { port: port@, text: text@ },
            Survey::Several { ports, lines } => SurveyView::Several {
                ports: port_views(ports@),
                lines: string_views(lines@),
            },
        }
    }
}

/// What follows from a list of ports.
pub open spec fn surveyed(ports: Seq<PortView>) -> SurveyView {
    let usb = ports.filter(on_usb());
    if usb.len() == 0 {
        SurveyView::NoneFound
    } else if usb.len() == 1 {
        SurveyView::Single { port: usb[0], text: single_text(usb[0]) }
    } else {
        SurveyView::Several { ports: usb, lines: entry_texts(usb) }
    }
}

/// Decides what follows from a list of ports.
pub fn survey_ports(ports: &Vec<PortInfo>) -> (out: Survey)
    ensures
        out@ == surveyed(port_views(ports@)),
{
    let filtered = usb_ports(ports);
    assert(port_views(filtered@).len() == filtered@.len());
    if filtered.len() == 0 {
        return Survey::NoneFound;
    }
    if filtered.len() == 1 {
        let only = &filtered[0];
        assert(port_views(filtered@)[0] == only@);
        return Survey::Single { port: only.clone(), text: single_port_text(only) };
    }
    let lines = port_entry_texts(&filtered);
    Survey::Several { ports: filtered, lines }
}

/// What follows from an answer of the user.
#[derive(Debug)]
pub enum Pick {
    /// The port was chosen.
    Chosen(PortInfo),
    /// The answer names no port: the text says so, and the user is asked again.
    Invalid(String),
}

/// What follows from an answer of the user, as values of the specification.
pub enum PickView {
    Chosen(PortView),
    Invalid(Seq<char>),
}

impl View for Pick {
    type V = PickView;

    open spec fn view(&self) -> PickView {
        match self {
            Pick::Chosen(port) => PickView::Chosen(port@),
            Pick::Invalid(text) => PickView::Invalid(text@),
        }
    }
}

/// What follows from a list or an answer is seen with every port, every line and every
/// text of it.
pub proof fn law_choice_is_seen_whole(survey: Survey, pick: Pick)
    ensures
        match survey {
            Survey::NoneFound => survey@ is NoneFound,
            Survey::Single { port, text } => survey@ == (SurveyView::Single {
                port: port@,
                text: text@,
            }),
            Survey::Several { ports, lines } => survey@ matches SurveyView::Several {
                ports: offered,
                lines: shown,
            } && offered == port_views(ports@) && shown.len() == lines@.len() && forall|i: int|
                0 <= i < lines@.len() ==> #[trigger] shown[i] == lines@[i]@,
        },
        match pick {
            Pick::Chosen(port) => pick@ == PickView::Chosen(port@),
            Pick::Invalid(text) => pick@ == PickView::Invalid(text@),
        },
{
}

/// What is said of an answer that names none of `n` ports.
pub open spec fn invalid_pick_text(answer: Seq<char>, n: nat) -> Seq<char> {
    "无效选择 '"@ + answer + "'。请输入 0 到 "@ + decimal((n - 1) as nat) + " 之间的数字。"@
}

/// What follows from the answer `input` to the question which of `ports` is meant.
pub open spec fn picked(ports: Seq<PortView>, input: Seq<char>) -> PickView {
    let answer = trimmed(input, CharClass::WhiteSpace);
    match parsed_unsigned(answer, usize::MAX as nat) {
        Some(i) if i < ports.len() => PickView::Chosen(ports[i as int]),
        _ => PickView::Invalid(invalid_pick_text(answer, ports.len())),
    }
}

/// Decides what follows from an answer of the user.
pub fn pick_port(ports: &Vec<PortInfo>, input: &str) -> (out: Pick)
    requires
        ports@.len() > 0,
    ensures
        out@ == picked(port_views(ports@), input@),
{
    let answer = trim(input, CharClass::WhiteSpace);
    let number = parse_unsigned(answer, usize::MAX as u64);
    if let Some(i) = number {
        if i < ports.len() as u64 {
            let i = i as usize;
            assert(port_views(ports@)[i as int] == ports@[i as int]@);
            return Pick::Chosen(ports[i].clone());
        }
    }
    let mut text = "无效选择 '".to_string();
    text.append(answer);
    text.append("'。请输入 0 到 ");
    push_decimal(&mut text, (ports.len() - 1) as u64);
    text.append(" 之间的数字。");
    Pick::Invalid(text)
}

/// Every port that is offered, or taken at once, is on USB and was listed.
pub proof fn law_survey_offers_listed_usb_ports(ports: Seq<PortView>)
    ensures
        match surveyed(ports) {
            SurveyView::NoneFound => forall|i: int|
                0 <= i < ports.len() ==> !((#[trigger] ports[i]).kind is Usb),
            SurveyView::Single { port, .. } => port.kind is Usb && ports.contains(port),
            SurveyView::Several { ports: offered, .. } => offered.len() >= 2 && forall|i: int|
                0 <= i < offered.len() ==> (#[trigger] offered[i]).kind is Usb && ports.contains(
                    offered[i],
                ),
        },
{
    let usb = ports.filter(on_usb());
    broadcast use vstd::seq_lib::group_filter_ensures;

    assert forall|i: int| 0 <= i < usb.len() implies (#[trigger] usb[i]).kind is Usb
        && ports.contains(usb[i]) by {
        assert(on_usb()(usb[i]));
        assert(usb.contains(usb[i]));
        ports.lemma_filter_contains_rev(on_usb(), usb[i]);
    }
    if usb.len() == 0 {
        assert forall|i: int| 0 <= i < ports.len() implies !((#[trigger] ports[i]).kind is Usb) by {
            if ports[i].kind is Usb {
                assert(on_usb()(ports[i]));
                assert(usb.contains(ports[i]));
            }
        }
    }
}

/// The ports that are offered, or the one that is taken at once.
pub open spec fn offered_by(survey: SurveyView) -> Seq<PortView> {
    match survey {
        SurveyView::NoneFound => Seq::empty(),
        SurveyView::Single { port, .. } => seq![port],
        SurveyView::Several { ports, .. } => ports,
    }
}

/// What is offered is what is on USB.
proof fn lemma_offer_is_filter(ports: Seq<PortView>)
    ensures
        offered_by(surveyed(ports)) == ports.filter(on_usb()),
{
    assert(offered_by(surveyed(ports)) =~= ports.filter(on_usb()));
}

/// Every listed port that is on USB is offered, in the order of the list and as often as it
/// is listed, and no other port is: the places at which the offered ports stand in the list
/// are those of its USB ports. The list for the user has one line for each of them, in the
/// same order.
pub proof fn law_every_usb_port_is_offered(ports: Seq<PortView>) -> (at: Seq<int>)
    ensures
        are_places_of_kept(at, ports, |p: PortView| p.kind is Usb),
        offered_by(surveyed(ports)).len() == at.len(),
        forall|k: int|
            0 <= k < at.len() ==> #[trigger] offered_by(surveyed(ports))[k] == ports[at[k]],
        surveyed(ports) matches SurveyView::Several { ports: offered, lines } ==> {
            &&& lines.len() == at.len()
            &&& forall|k: int|
                0 <= k < at.len() ==> #[trigger] lines[k] == entry_text(k as nat, ports[at[k]])
        },
        surveyed(ports) matches SurveyView::Single { port, text } ==> text == single_text(port),
{
    lemma_offer_is_filter(ports);
    let at = lemma_filter_places(ports, on_usb());
    assert(on_usb() =~= (|p: PortView| p.kind is Usb));
    assert forall|k: int|
        0 <= k < at.len() && surveyed(ports) is Several implies #[trigger] surveyed(
        ports,
    )->lines[k] == entry_text(k as nat, ports[at[k]]) by {
        assert(ports.filter(on_usb())[k] == ports[at[k]]);
    }
    at
}

/// Two lists of ports one behind the other offer what the first offers and then what the
/// second offers; a list of one port offers it exactly when it is on USB.
pub proof fn law_offers_add_up(a: Seq<PortView>, b: Seq<PortView>, port: PortView)
    ensures
        offered_by(surveyed(a + b)) == offered_by(surveyed(a)) + offered_by(surveyed(b)),
        offered_by(surveyed(seq![port])) == if port.kind is Usb {
            seq![port]
        } else {
            Seq::empty()
        },
{
    lemma_offer_is_filter(a);
    lemma_offer_is_filter(b);
    lemma_offer_is_filter(a + b);
    lemma_offer_is_filter(seq![port]);
    Seq::filter_distributes_over_add(a, b, on_usb());
    reveal(Seq::filter);
    let one = seq![port];
    assert(one.drop_last() =~= Seq::<PortView>::empty());
    assert(one.drop_last().filter(on_usb()) =~= Seq::<PortView>::empty());
    assert(one.filter(on_usb()) =~= if port.kind is Usb {
        seq![port]
    } else {
        Seq::empty()
    });
}

/// An answer chooses a port exactly when, without the white space around it, it is the
/// number of a port in decimal, with zeros or a plus sign in front or without; any other
/// answer is repeated to the user with the numbers that there are.
pub proof fn law_only_numbers_choose(ports: Seq<PortView>, input: Seq<char>, i: nat)
    requires
        ports.len() <= usize::MAX,
    ensures
        ({
            let answer = trimmed(input, CharClass::WhiteSpace);
            let is_number = spells(answer, i) || exists|t: Seq<char>|
                answer == #[trigger] ("+"@ + t) && spells(t, i);
            &&& i < ports.len() && is_number ==> picked(ports, input) == PickView::Chosen(
                ports[i as int],
            )
            &&& i >= ports.len() && is_number ==> picked(ports, input) is Invalid
            &&& picked(ports, input) is Chosen ==> exists|k: nat| #[trigger]
                parsed_unsigned(answer, usize::MAX as nat) == Some(k) && k < ports.len() && picked(
                    ports,
                    input,
                ) == PickView::Chosen(ports[k as int])
            &&& picked(ports, input) matches PickView::Invalid(text) ==> text == "无效选择 '"@
                + answer + "'。请输入 0 到 "@ + decimal((ports.len() - 1) as nat) + " 之间的数字。"@
        }),
{
    let answer = trimmed(input, CharClass::WhiteSpace);
    law_unsigned_numbers_read(answer, i, usize::MAX as nat);
    if i > usize::MAX && parsed_unsigned(answer, usize::MAX as nat) is Some {
        let k = parsed_unsigned(answer, usize::MAX as nat)->0;
        law_unsigned_numbers_read(answer, k, usize::MAX as nat);
        law_unsigned_numbers_read(answer, i, i);
        law_unsigned_numbers_read(answer, k, i);
    }
    if picked(ports, input) is Chosen {
        let k = parsed_unsigned(answer, usize::MAX as nat)->0;
        assert(parsed_unsigned(answer, usize::MAX as nat) == Some(k));
    }
}

/// The number that the list shows before a port chooses that port, whatever white
/// space stands around it.
pub proof fn law_listed_number_chooses_the_port(
    ports: Seq<PortView>,
    i: nat,
    before: Seq<char>,
    after: Seq<char>,
)
    requires
        i < ports.len() <= usize::MAX,
        all_space(before),
        all_space(after),
    ensures
        picked(ports, before + decimal(i) + after) == PickView::Chosen(ports[i as int]),
{
    lemma_decimal_is_a_word(i);
    law_trim_strips_space(before, decimal(i), after);
    law_decimal_reads_back(i, usize::MAX as nat);
}

// ---------------------------------------------------------------------------
// What the flasher is told of a port
// ---------------------------------------------------------------------------

/// The USB data with which a port is opened, or why it cannot be.
pub open spec fn connection_usb(kind: KindView) -> Result<UsbView, Seq<char>> {
    match kind {
        KindView::Usb(info) => Ok(info),
        KindView::Pci | KindView::Unknown => Ok(
            UsbView { vid: 0, pid: 0, serial_number: None, manufacturer: None, product: None },
        ),
        KindView::Bluetooth => Err("不支持的串口类型："@ + "BluetoothPort"@),
    }
}

/// Gives the USB data with which a port is opened. A Bluetooth port is refused.
pub fn connection_usb_info(kind: &PortKind) -> (out: Result<UsbInfo, String>)
    ensures
        match out {
            Ok(info) => connection_usb(kind@) == Ok::<UsbView, Seq<char>>(info@),
            Err(text) => connection_usb(kind@) == Err::<UsbView, Seq<char>>(text@),
        },
{
    match kind {
        PortKind::Usb(info) => Ok(info.clone()),
        PortKind::Pci | PortKind::Unknown => Ok(
            UsbInfo { vid: 0, pid: 0, serial_number: None, manufacturer: None, product: None },
        ),
        PortKind::Bluetooth => {
            let mut text = "不支持的串口类型：".to_string();
            text.append("BluetoothPort");
            Err(text)
        },
    }
}

/// Only a Bluetooth port is refused; a port that is neither Bluetooth nor USB is opened with
/// no USB data at all, and a USB port with its own.
pub proof fn law_only_bluetooth_is_refused(kind: KindView)
    ensures
        connection_usb(kind) is Err <==> kind is Bluetooth,
        kind matches KindView::Usb(info) ==> connection_usb(kind) == Ok::<UsbView, Seq<char>>(info),
        (kind is Pci || kind is Unknown) ==> (connection_usb(kind) matches Ok(info) && info.vid == 0
            && info.pid == 0 && info.serial_number is None && info.manufacturer is None
            && info.product is None),
{
}

/// A port that was taken or offered is never refused, and is opened with its own USB data.
pub proof fn law_offered_ports_are_accepted(ports: Seq<PortView>, input: Seq<char>)
    ensures
        match surveyed(ports) {
            SurveyView::NoneFound => true,
            SurveyView::Single { port, .. } => connection_usb(port.kind) == Ok::<
                UsbView,
                Seq<char>,
            >(port.kind->Usb_0),
            SurveyView::Several { ports: offered, .. } => match picked(offered, input) {
                PickView::Chosen(port) => connection_usb(port.kind) == Ok::<UsbView, Seq<char>>(
                    port.kind->Usb_0,
                ),
                PickView::Invalid(_) => true,
            },
        },
{
    law_survey_offers_listed_usb_ports(ports);
}

} // verus!

//! The names of log files.

use crate::numbers::{
    all_digits, decimal, is_digit, lemma_decimal_value, lemma_padded_value, zero_padded,
};
use crate::ports::{serial_number, serial_number_or, KindView, PortInfo, PortView, UsbView};
use crate::text::{
    law_without_keeps_the_rest, law_without_takes_out_one_character, remove_char, without,
};
use vstd::prelude::*;
use vstd::string::*;

verus! {

/// How the time stands in the name of a log file.
pub const STAMP_PATTERN: &'static str = "%Y-%m-%d-%H-%M-%S";

/// What stands for a serial number that is not known.
pub const UNKNOWN_SERIAL: &'static str = "UNKNOWN";

/// A year: four digits, or a plus sign and more of them.
pub open spec fn year_text(year: nat) -> Seq<char> {
    if year <= 9999 {
        zero_padded(year, 4)
    } else {
        seq!['+'] + decimal(year)
    }
}

/// A date and a time of day, as they stand in the name of a log file.
pub open spec fn stamp_text(
    year: nat,
    month: nat,
    day: nat,
    hour: nat,
    minute: nat,
    second: nat,
) -> Seq<char> {
    year_text(year) + seq!['-'] + zero_padded(month, 2) + seq!['-'] + zero_padded(day, 2) + seq![
        '-',
    ] + zero_padded(hour, 2) + seq!['-'] + zero_padded(minute, 2) + seq!['-'] + zero_padded(
        second,
        2,
    )
}

/// True of the text of a date and a time of day not before the first of the epoch.
pub open spec fn is_stamp(text: Seq<char>) -> bool {
    exists|year: nat, month: nat, day: nat, hour: nat, minute: nat, second: nat|
        {
            &&& text == #[trigger] stamp_text(year, month, day, hour, minute, second)
            &&& 1969 <= year
            &&& 1 <= month <= 12
            &&& 1 <= day <= 31
            &&& hour <= 23
            &&& minute <= 59
            &&& second <= 60
        }
}

/// `chrono::Local::now` reads the clock and the time zone of the machine; `format` with
/// `to_string` writes that time by the pattern. Of the text only its form is claimed, since
/// the time itself is the machine's: year, month, day, hour, minute and second with dashes
/// between them. A clock that is set before 1970 makes `chrono` panic.
#[verifier::external_body]
fn local_time_text(pattern: &str) -> (text: String)
    requires
        pattern@ == STAMP_PATTERN@,
    ensures
        is_stamp(text@),
{
    chrono::Local::now().format(pattern).to_string()
}

/// The name of the log file of the device `serial` that was opened at `stamp`.
pub open spec fn log_name(serial: Seq<char>, stamp: Seq<char>) -> Seq<char> {
    "logs_"@ + serial + "_"@ + stamp + ".txt"@
}

/// The name holds the whole serial number behind `logs_` and the whole time behind the next
/// underscore, up to `.txt` at its end.
pub proof fn law_log_name_holds_number_and_time(serial: Seq<char>, stamp: Seq<char>)
    ensures
        ({
            let name = log_name(serial, stamp);
            let n = serial.len() as int;
            let m = stamp.len() as int;
            &&& name.len() == 10 + n + m
            &&& name.subrange(0, 5) == "logs_"@
            &&& name.subrange(5, 5 + n) == serial
            &&& name[5 + n] == '_'
            &&& name.subrange(6 + n, 6 + n + m) == stamp
            &&& name.subrange(6 + n + m, 10 + n + m) == ".txt"@
        }),
{
    reveal_strlit("logs_");
    reveal_strlit("_");
    reveal_strlit(".txt");
    let name = log_name(serial, stamp);
    let n = serial.len() as int;
    let m = stamp.len() as int;
    assert(name.subrange(0, 5) =~= "logs_"@);
    assert(name.subrange(5, 5 + n) =~= serial);
    assert(name.subrange(6 + n, 6 + n + m) =~= stamp);
    assert(name.subrange(6 + n + m, 10 + n + m) =~= ".txt"@);
}

/// Names the log file of the device `serial` that was opened at `stamp`.
pub fn log_filename_at(serial: &str, stamp: &str) -> (name: String)
    ensures
        name@ == log_name(serial@, stamp@),
{
    let mut name = "logs_".to_string();
    name.append(serial);
    name.append("_");
    name.append(stamp);
    name.append(".txt");
    name
}

/// The serial number as it stands in the name of the log file of a recording.
pub open spec fn recorded_serial(port: PortView) -> Seq<char> {
    serial_number_or(port.kind, UNKNOWN_SERIAL@)
}

/// The serial number as it stands in the name of the log file of a forwarded device:
/// without the colons that some file systems refuse.
pub open spec fn sanitized_serial(port: PortView) -> Seq<char> {
    without(recorded_serial(port), ':')
}

/// The serial number of a USB device stands in the name whole, and `UNKNOWN` where there is
/// none; a number without colons stands in the name of a forwarded device as it is.
pub proof fn law_log_name_has_the_serial_number(port: PortView, info: UsbView)
    requires
        port.kind == KindView::Usb(info),
    ensures
        info.serial_number matches Some(sn) ==> {
            &&& recorded_serial(port) == sn
            &&& !sn.contains(':') ==> sanitized_serial(port) == sn
            &&& sanitized_serial(port) == without(sn, ':')
        },
        info.serial_number is None ==> recorded_serial(port) == "UNKNOWN"@ && sanitized_serial(port)
            == "UNKNOWN"@,
{
    law_without_keeps_the_rest(recorded_serial(port), Seq::empty(), ':');
    reveal_strlit("UNKNOWN");
}

/// A port that is not on USB has no serial number.
pub proof fn law_log_name_of_other_ports(port: PortView)
    requires
        !(port.kind is Usb),
    ensures
        recorded_serial(port) == "UNKNOWN"@,
        sanitized_serial(port) == "UNKNOWN"@,
{
    law_without_keeps_the_rest(recorded_serial(port), Seq::empty(), ':');
    reveal_strlit("UNKNOWN");
}

/// Names the log file of a recording that starts now.
pub fn recording_filename(port: &PortInfo) -> (name: String)
    ensures
        exists|stamp: Seq<char>|
            is_stamp(stamp) && name@ == #[trigger] log_name(recorded_serial(port@), stamp),
{
    let stamp = local_time_text(STAMP_PATTERN);
    let serial = serial_number(&port.kind, UNKNOWN_SERIAL);
    let name = log_filename_at(serial, stamp.as_str());
    assert(name@ == log_name(recorded_serial(port@), stamp@));
    name
}

/// Names the log file of a forwarded device that is opened now.
pub fn make_log_filename(port: &PortInfo) -> (name: String)
    ensures
        exists|stamp: Seq<char>|
            is_stamp(stamp) && name@ == #[trigger] log_name(sanitized_serial(port@), stamp),
        !name@.contains(':'),
{
    let serial = remove_char(serial_number(&port.kind, UNKNOWN_SERIAL), ':');
    let stamp = local_time_text(STAMP_PATTERN);
    proof {
        law_sanitized_name_has_no_colon(port@, stamp@);
    }
    let name = log_filename_at(serial.as_str(), stamp.as_str());
    assert(name@ == log_name(sanitized_serial(port@), stamp@));
    name
}

/// The name of the log file of a forwarded device has no colon in it.
pub proof fn law_sanitized_name_has_no_colon(port: PortView, stamp: Seq<char>)
    requires
        is_stamp(stamp),
    ensures
        !log_name(sanitized_serial(port), stamp).contains(':'),
{
    reveal_strlit("logs_");
    reveal_strlit("_");
    reveal_strlit(".txt");
    let serial = sanitized_serial(port);
    law_without_takes_out_one_character(recorded_serial(port), ':');
    lemma_stamp_has_no_colon(stamp);
    let name = log_name(serial, stamp);
    assert forall|i: int| 0 <= i < name.len() implies name[i] != ':' by {
        let a = 5 + serial.len();
        let b = a + 1 + stamp.len();
        if 5 <= i < a {
            assert(name[i] == serial[i - 5]);
        } else if a + 1 <= i < b {
            assert(name[i] == stamp[i - a - 1]);
        }
    }
}

/// A text of digits has no colon in it.
proof fn lemma_digits_have_no_colon(s: Seq<char>)
    requires
        all_digits(s),
    ensures
        forall|i: int| 0 <= i < s.len() ==> s[i] != ':',
{
    assert forall|i: int| 0 <= i < s.len() implies s[i] != ':' by {
        assert(is_digit(s[i]));
    }
}

/// A date and a time of day in the form of a stamp have no colon in them.
proof fn lemma_stamp_has_no_colon(stamp: Seq<char>)
    requires
        is_stamp(stamp),
    ensures
        !stamp.contains(':'),
{
    let (year, month, day, hour, minute, second) = choose|
        year: nat,
        month: nat,
        day: nat,
        hour: nat,
        minute: nat,
        second: nat,
    |
        stamp == #[trigger] stamp_text(year, month, day, hour, minute, second);
    lemma_padded_value(year, 4);
    lemma_decimal_value(year);
    lemma_padded_value(month, 2);
    lemma_padded_value(day, 2);
    lemma_padded_value(hour, 2);
    lemma_padded_value(minute, 2);
    lemma_padded_value(second, 2);
    lemma_digits_have_no_colon(zero_padded(year, 4));
    lemma_digits_have_no_colon(decimal(year));
    lemma_digits_have_no_colon(zero_padded(month, 2));
    lemma_digits_have_no_colon(zero_padded(day, 2));
    lemma_digits_have_no_colon(zero_padded(hour, 2));
    lemma_digits_have_no_colon(zero_padded(minute, 2));
    lemma_digits_have_no_colon(zero_padded(second, 2));
}

} // verus!

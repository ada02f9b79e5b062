use fox_tools::build_time::{build_time_text, format_build_datetime, month_number};

#[test]
fn compiler_dates_come_out_in_numbers() {
    let out = format_build_datetime("Jan  5 2025", "12:34:56");
    assert_eq!(out.as_deref(), Some("2025-01-05 12:34:56"));
    let out = format_build_datetime("Dec 31 1999", " 23:59:59 ");
    assert_eq!(out.as_deref(), Some("1999-12-31 23:59:59"));
    let out = format_build_datetime("  Feb\t+3   -7  and more", "1:2");
    assert_eq!(out.as_deref(), Some("-007-02-03 1:2"));
}

#[test]
fn other_dates_do_not() {
    assert_eq!(format_build_datetime("", "12:34:56"), None);
    assert_eq!(format_build_datetime("Jan 5", "12:34:56"), None);
    assert_eq!(format_build_datetime("jan 5 2025", "12:34:56"), None);
    assert_eq!(format_build_datetime("Jan five 2025", "12:34:56"), None);
    assert_eq!(format_build_datetime("Jan -5 2025", "12:34:56"), None);
    assert_eq!(format_build_datetime("Jan 5 20x5", "12:34:56"), None);
    assert_eq!(format_build_datetime("Jan 4294967296 2025", "12:34:56"), None);
    assert_eq!(format_build_datetime("Jan 5 2147483648", "12:34:56"), None);
    assert_eq!(format_build_datetime("Jan 5 2025", "123456"), None);
}

#[test]
fn months_are_numbered() {
    let names =
        ["Jan", "Feb", "Mar", "Apr", "May", "Jun", "Jul", "Aug", "Sep", "Oct", "Nov", "Dec"];
    for (i, name) in names.iter().enumerate() {
        assert_eq!(month_number(name), Some(i as u32 + 1));
    }
    assert_eq!(month_number("January"), None);
    assert_eq!(month_number(""), None);
}

#[test]
fn unreadable_times_are_shown_as_they_stand() {
    assert_eq!(build_time_text("Mar 10 2024", "01:02:03"), "2024-03-10 01:02:03");
    assert_eq!(build_time_text("2024-03-10", "01:02:03"), "2024-03-10 01:02:03");
    assert_eq!(build_time_text("Mar 10 2024", "noon"), "Mar 10 2024 noon");
    assert_eq!(build_time_text("", ""), " ");
}

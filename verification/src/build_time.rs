//! The time of a build, from the two texts that the compiler leaves in an image.

use crate::numbers::{
    decimal, law_decimal_reads_back, law_padded_reads_back, lemma_decimal_is_a_word,
    lemma_signed_is_a_word, parse_i32, parse_unsigned, parsed_i32, parsed_unsigned,
    push_signed_zero_padded, push_zero_padded, signed_zero_padded, zero_padded,
};
use crate::text::{
    all_space, free_of_space, has_char, law_words_are_set_off_by_space, lemma_no_words, same_text,
    split_words, texts, trim, trimmed, words, CharClass,
};
use vstd::prelude::*;
use vstd::string::*;

verus! {

/// The number of the month with the English short name `name`.
pub open spec fn month_of(name: Seq<char>) -> Option<nat> {
    if name == "Jan"@ {
        Some(1)
    } else if name == "Feb"@ {
        Some(2)
    } else if name == "Mar"@ {
        Some(3)
    } else if name == "Apr"@ {
        Some(4)
    } else if name == "May"@ {
        Some(5)
    } else if name == "Jun"@ {
        Some(6)
    } else if name == "Jul"@ {
        Some(7)
    } else if name == "Aug"@ {
        Some(8)
    } else if name == "Sep"@ {
        Some(9)
    } else if name == "Oct"@ {
        Some(10)
    } else if name == "Nov"@ {
        Some(11)
    } else if name == "Dec"@ {
        Some(12)
    } else {
        None
    }
}

/// Numbers the month with the English short name `name`.
pub fn month_number(name: &str) -> (out: Option<u32>)
    ensures
        match out {
            Some(m) => month_of(name@) == Some(m as nat),
            None => month_of(name@) is None,
        },
{
    if same_text(name, "Jan") {
        Some(1)
    } else if same_text(name, "Feb") {
        Some(2)
    } else if same_text(name, "Mar") {
        Some(3)
    } else if same_text(name, "Apr") {
        Some(4)
    } else if same_text(name, "May") {
        Some(5)
    } else if same_text(name, "Jun") {
        Some(6)
    } else if same_text(name, "Jul") {
        Some(7)
    } else if same_text(name, "Aug") {
        Some(8)
    } else if same_text(name, "Sep") {
        Some(9)
    } else if same_text(name, "Oct") {
        Some(10)
    } else if same_text(name, "Nov") {
        Some(11)
    } else if same_text(name, "Dec") {
        Some(12)
    } else {
        None
    }
}

/// A text names a month exactly when it stands in the row of the twelve short names at the
/// place of that month.
pub proof fn law_month_is_the_place_in_the_year(name: Seq<char>, m: nat)
    ensures
        month_of(name) == Some(m) <==> 1 <= m <= 12 && name
            == "JanFebMarAprMayJunJulAugSepOctNovDec"@.subrange(3 * (m - 1), 3 * m as int),
{
    let row = "JanFebMarAprMayJunJulAugSepOctNovDec"@;
    reveal_strlit("JanFebMarAprMayJunJulAugSepOctNovDec");
    reveal_strlit("Jan");
    reveal_strlit("Feb");
    reveal_strlit("Mar");
    reveal_strlit("Apr");
    reveal_strlit("May");
    reveal_strlit("Jun");
    reveal_strlit("Jul");
    reveal_strlit("Aug");
    reveal_strlit("Sep");
    reveal_strlit("Oct");
    reveal_strlit("Nov");
    reveal_strlit("Dec");
    assert(row.subrange(0, 3) =~= "Jan"@);
    assert(row.subrange(3, 6) =~= "Feb"@);
    assert(row.subrange(6, 9) =~= "Mar"@);
    assert(row.subrange(9, 12) =~= "Apr"@);
    assert(row.subrange(12, 15) =~= "May"@);
    assert(row.subrange(15, 18) =~= "Jun"@);
    assert(row.subrange(18, 21) =~= "Jul"@);
    assert(row.subrange(21, 24) =~= "Aug"@);
    assert(row.subrange(24, 27) =~= "Sep"@);
    assert(row.subrange(27, 30) =~= "Oct"@);
    assert(row.subrange(30, 33) =~= "Nov"@);
    assert(row.subrange(33, 36) =~= "Dec"@);
    assert("Jan"@[0] == 'J' && "Jan"@[1] == 'a' && "Jan"@[2] == 'n');
    assert("Feb"@[0] == 'F' && "Mar"@[0] == 'M' && "Mar"@[2] == 'r');
    assert("Apr"@[0] == 'A' && "Apr"@[1] == 'p' && "May"@[0] == 'M' && "May"@[2] == 'y');
    assert("Jun"@[0] == 'J' && "Jun"@[1] == 'u' && "Jun"@[2] == 'n');
    assert("Jul"@[0] == 'J' && "Jul"@[1] == 'u' && "Jul"@[2] == 'l');
    assert("Aug"@[0] == 'A' && "Aug"@[1] == 'u' && "Sep"@[0] == 'S');
    assert("Oct"@[0] == 'O' && "Nov"@[0] == 'N' && "Dec"@[0] == 'D');
}

/// Year, month, day and time of day in one text.
pub open spec fn date_time_text(year: int, month: nat, day: nat, time: Seq<char>) -> Seq<char> {
    signed_zero_padded(year, 4) + "-"@ + zero_padded(month, 2) + "-"@ + zero_padded(day, 2) + " "@
        + time
}

/// The build time in numbers, when `date` reads as month, day and year and `time`
/// has a colon in it. Words behind the third of `date` do not count.
pub open spec fn build_datetime(date: Seq<char>, time: Seq<char>) -> Option<Seq<char>> {
    let parts = words(date);
    let clock = trimmed(time, CharClass::WhiteSpace);
    if parts.len() < 3 || !clock.contains(':') {
        None
    } else {
        match (
            month_of(parts[0]),
            parsed_unsigned(parts[1], u32::MAX as nat),
            parsed_i32(parts[2]),
        ) {
            (Some(month), Some(day), Some(year)) => Some(date_time_text(year, month, day, clock)),
            _ => None,
        }
    }
}

/// Puts a date like `Jan  5 2025` and a time like `12:34:56` into numbers.
pub fn format_build_datetime(date_str: &str, time_str: &str) -> (out: Option<String>)
    ensures
        match out {
            Some(text) => build_datetime(date_str@, time_str@) == Some(text@),
            None => build_datetime(date_str@, time_str@) is None,
        },
{
    let parts = split_words(date_str);
    assert(texts(parts@).len() == parts@.len());
    if parts.len() < 3 {
        return None;
    }
    proof {
        assert(texts(parts@)[0] == parts@[0]@);
        assert(texts(parts@)[1] == parts@[1]@);
        assert(texts(parts@)[2] == parts@[2]@);
    }
    let month = match month_number(parts[0]) {
        Some(m) => m,
        None => return None,
    };
    let day = match parse_unsigned(parts[1], u32::MAX as u64) {
        Some(d) => d,
        None => return None,
    };
    let year = match parse_i32(parts[2]) {
        Some(y) => y,
        None => return None,
    };
    let time_clean = trim(time_str, CharClass::WhiteSpace);
    if !has_char(time_clean, ':') {
        return None;
    }
    let mut out = String::new();
    push_signed_zero_padded(&mut out, year, 4);
    out.append("-");
    push_zero_padded(&mut out, month as u64, 2);
    out.append("-");
    push_zero_padded(&mut out, day, 2);
    out.append(" ");
    out.append(time_clean);
    proof {
        assert(Seq::<char>::empty() + signed_zero_padded(year as int, 4) =~= signed_zero_padded(
            year as int,
            4,
        ));
    }
    Some(out)
}

/// The build time as it is shown: in numbers when the texts read as a time, else as they stand.
pub open spec fn build_time(date: Seq<char>, time: Seq<char>) -> Seq<char> {
    match build_datetime(date, time) {
        Some(text) => text,
        None => date + " "@ + time,
    }
}

/// Shows the build time.
pub fn build_time_text(date: &str, time: &str) -> (text: String)
    ensures
        text@ == build_time(date@, time@),
{
    match format_build_datetime(date, time) {
        Some(text) => text,
        None => {
            let mut text = date.to_string();
            text.append(" ");
            text.append(time);
            text
        },
    }
}

/// The words of a date and a time of day come out as year, month and day in two or more
/// digits, with dashes between them, and then the time of day without the white space
/// around it.
pub proof fn law_build_time_is_put_in_order(
    date: Seq<char>,
    time: Seq<char>,
    month: nat,
    day: nat,
    year: int,
)
    requires
        words(date).len() >= 3,
        month_of(words(date)[0]) == Some(month),
        parsed_unsigned(words(date)[1], u32::MAX as nat) == Some(day),
        parsed_i32(words(date)[2]) == Some(year),
        trimmed(time, CharClass::WhiteSpace).contains(':'),
    ensures
        build_datetime(date, time) == Some(
            signed_zero_padded(year, 4) + "-"@ + zero_padded(month, 2) + "-"@ + zero_padded(day, 2)
                + " "@ + trimmed(time, CharClass::WhiteSpace),
        ),
        build_time(date, time) == build_datetime(date, time)->0,
{
}

/// A date that lacks a word, the name of a month, the number of a day or that of a year, or
/// a time of day without a colon, is not put in order: both are shown as they stand.
pub proof fn law_other_build_times_stay(date: Seq<char>, time: Seq<char>)
    requires
        words(date).len() < 3 || month_of(words(date)[0]) is None || parsed_unsigned(
            words(date)[1],
            u32::MAX as nat,
        ) is None || parsed_i32(words(date)[2]) is None || !trimmed(
            time,
            CharClass::WhiteSpace,
        ).contains(':'),
    ensures
        build_datetime(date, time) is None,
        build_time(date, time) == date + " "@ + time,
{
}

/// The name of a month is a word.
proof fn lemma_month_is_a_word(name: Seq<char>)
    requires
        month_of(name) is Some,
    ensures
        name.len() > 0,
        free_of_space(name),
{
    reveal_strlit("Jan");
    reveal_strlit("Feb");
    reveal_strlit("Mar");
    reveal_strlit("Apr");
    reveal_strlit("May");
    reveal_strlit("Jun");
    reveal_strlit("Jul");
    reveal_strlit("Aug");
    reveal_strlit("Sep");
    reveal_strlit("Oct");
    reveal_strlit("Nov");
    reveal_strlit("Dec");
}

/// A date that a compiler writes, the short name of a month, the day and the year with
/// white space between them, comes out in numbers in front of the time of day.
pub proof fn law_compiler_date_comes_out_in_numbers(
    name: Seq<char>,
    gap1: Seq<char>,
    day: nat,
    gap2: Seq<char>,
    year: int,
    time: Seq<char>,
)
    requires
        month_of(name) is Some,
        gap1.len() > 0 && all_space(gap1),
        gap2.len() > 0 && all_space(gap2),
        day <= u32::MAX,
        i32::MIN <= year <= i32::MAX,
        trimmed(time, CharClass::WhiteSpace).contains(':'),
    ensures
        build_datetime(
            name + gap1 + (decimal(day) + gap2 + signed_zero_padded(year, 4)),
            time,
        ) == Some(
            signed_zero_padded(year, 4) + "-"@ + zero_padded(month_of(name)->0, 2) + "-"@
                + zero_padded(day, 2) + " "@ + trimmed(time, CharClass::WhiteSpace),
        ),
{
    lemma_month_is_a_word(name);
    lemma_decimal_is_a_word(day);
    lemma_signed_is_a_word(year, 4);
    let y = signed_zero_padded(year, 4);
    let d = decimal(day);
    let none = Seq::<char>::empty();
    law_words_are_set_off_by_space(y, none, none);
    assert(y + none + none =~= y);
    lemma_no_words();
    law_words_are_set_off_by_space(d, gap2, y);
    law_words_are_set_off_by_space(name, gap1, d + gap2 + y);
    let all = words(name + gap1 + (d + gap2 + y));
    assert(all =~= seq![name, d, y]);
    law_decimal_reads_back(day, u32::MAX as nat);
    law_padded_reads_back(year, 4);
}

} // verus!

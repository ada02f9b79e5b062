//! The text protocol on the serial line: what a device prints and what it is sent.

use crate::numbers::{
    hex_char, hex_digits, hex_of_bytes, hex_value, law_hex_of_bytes_is_byte_by_byte,
    law_hex_value_is_the_place, push_hex_of_bytes, read_hex_digit,
};
use crate::text::{
    chars_of, find, find_text, law_find_is_the_first, law_line_end_is_cut_off, occurs_at,
    only_line_ends, trim, trim_end, trimmed, trimmed_end, CharClass,
};
use vstd::prelude::*;
use vstd::slice::slice_to_vec;
use vstd::string::*;
use vstd::utf8::*;

verus! {

/// What stands in front of the hexadecimal bytes of a request.
pub const REQUEST_PREFIX: &'static str = "FOX-RefereeSystem: SerialProtocolRequest[";

/// What stands in front of the short serial number.
pub const SHORT_SN_PREFIX: &'static str = "SerialProtocolShortSN[";

/// The command that asks a device for its short serial number.
pub const HEARTBEAT_COMMAND: &'static str = "referee heartbeat\n";

/// What happens on the connections of a device.
#[derive(Debug)]
pub enum Event {
    /// The device printed its short serial number.
    ShortSn(String),
    /// The device printed a request, in hexadecimal.
    ProtocolHex(String),
    /// The serial port is gone.
    SerialClosed,
    /// The websocket is gone.
    WsClosed,
}

/// An event as values of the specification.
pub enum EventView {
    ShortSn(Seq<char>),
    ProtocolHex(Seq<char>),
    SerialClosed,
    WsClosed,
}

impl View for Event {
    type V = EventView;

    open spec fn view(&self) -> EventView {
        match self {
            Event::ShortSn(sn) => EventView::ShortSn(sn@),
            Event::ProtocolHex(hex) => EventView::ProtocolHex(hex@),
            Event::SerialClosed => EventView::SerialClosed,
            Event::WsClosed => EventView::WsClosed,
        }
    }
}

// ---------------------------------------------------------------------------
// What a line holds
// ---------------------------------------------------------------------------

/// What stands in `line` between the first `prefix` and the next closing bracket.
pub open spec fn bracketed(line: Seq<char>, prefix: Seq<char>) -> Option<Seq<char>> {
    match find(line, prefix) {
        Some(start) => {
            let rest = line.skip(start + prefix.len());
            match find(rest, "]"@) {
                Some(end) => Some(rest.take(end)),
                None => None,
            }
        },
        None => None,
    }
}

/// The request in `line`, when it holds one that is not empty.
pub open spec fn protocol_hex(line: Seq<char>) -> Option<Seq<char>> {
    match bracketed(line, REQUEST_PREFIX@) {
        Some(hex) if hex.len() > 0 => Some(hex),
        _ => None,
    }
}

/// The short serial number in `line` without white space around it, when one is left.
pub open spec fn short_sn(line: Seq<char>) -> Option<Seq<char>> {
    match bracketed(line, SHORT_SN_PREFIX@) {
        Some(raw) if trimmed(raw, CharClass::WhiteSpace).len() > 0 => Some(
            trimmed(raw, CharClass::WhiteSpace),
        ),
        _ => None,
    }
}

/// Cuts out what stands between the first `prefix` and the next closing bracket.
fn bracketed_part<'a>(line: &'a str, prefix: &str) -> (out: Option<&'a str>)
    ensures
        match out {
            Some(part) => bracketed(line@, prefix@) == Some(part@),
            None => bracketed(line@, prefix@) is None,
        },
{
    let start = match find_text(line, prefix) {
        Some(start) => start,
        None => return None,
    };
    let to = line.unicode_len();
    let from = start + prefix.unicode_len();
    let rest = line.substring_char(from, to);
    assert(rest@ =~= line@.skip(start + prefix@.len()));
    match find_text(rest, "]") {
        Some(end) => {
            let part = rest.substring_char(0, end);
            assert(part@ =~= rest@.take(end as int));
            Some(part)
        },
        None => None,
    }
}

/// Extracts the hexadecimal bytes inside `FOX-RefereeSystem: SerialProtocolRequest[...]`.
pub fn extract_protocol_hex<'a>(line: &'a str) -> (out: Option<&'a str>)
    ensures
        match out {
            Some(hex) => protocol_hex(line@) == Some(hex@),
            None => protocol_hex(line@) is None,
        },
{
    match bracketed_part(line, REQUEST_PREFIX) {
        Some(hex) => if hex.is_empty() {
            None
        } else {
            Some(hex)
        },
        None => None,
    }
}

/// Extracts the short serial number inside `SerialProtocolShortSN[...]`.
pub fn extract_short_sn(line: &str) -> (out: Option<String>)
    ensures
        match out {
            Some(sn) => short_sn(line@) == Some(sn@),
            None => short_sn(line@) is None,
        },
{
    match bracketed_part(line, SHORT_SN_PREFIX) {
        Some(raw) => {
            let sn = trim(raw, CharClass::WhiteSpace);
            if sn.is_empty() {
                None
            } else {
                Some(sn.to_string())
            }
        },
        None => None,
    }
}

/// What is in the brackets behind the first prefix of a line is what is extracted.
pub proof fn law_bracketed_part_is_found(
    head: Seq<char>,
    prefix: Seq<char>,
    part: Seq<char>,
    tail: Seq<char>,
)
    requires
        forall|j: int|
            0 <= j < head.len() ==> !occurs_at(head + prefix + part + "]"@ + tail, prefix, j),
        !part.contains(']'),
    ensures
        bracketed(head + prefix + part + "]"@ + tail, prefix) == Some(part),
{
    reveal_strlit("]");
    let line = head + prefix + part + "]"@ + tail;
    let from = (head.len() + prefix.len()) as int;
    assert(line.subrange(head.len() as int, from) =~= prefix);
    law_find_is_the_first(line, prefix, head.len() as int);
    let rest = line.skip(from);
    let k = part.len() as int;
    assert(rest.subrange(k, k + 1) =~= "]"@);
    assert forall|j: int| 0 <= j < k implies !occurs_at(rest, "]"@, j) by {
        if occurs_at(rest, "]"@, j) {
            assert(rest.subrange(j, j + 1)[0] == ']');
            assert(part[j] == ']');
        }
    }
    law_find_is_the_first(rest, "]"@, k);
    assert(rest.take(k) =~= part);
}

/// True when `part` stands in `line` between the first `prefix` and the next closing bracket.
pub open spec fn stands_in_brackets(line: Seq<char>, prefix: Seq<char>, part: Seq<char>) -> bool {
    &&& !part.contains(']')
    &&& exists|head: Seq<char>, tail: Seq<char>|
        line == #[trigger] (head + prefix + part + "]"@ + tail) && forall|j: int|
            0 <= j < head.len() ==> !occurs_at(line, prefix, j)
}

/// What is extracted is exactly what stands in the brackets: all of it, and nothing from a
/// line without them.
pub proof fn law_extracted_part_stands_in_brackets(
    line: Seq<char>,
    prefix: Seq<char>,
    part: Seq<char>,
)
    ensures
        bracketed(line, prefix) == Some(part) <==> stands_in_brackets(line, prefix, part),
{
    if bracketed(line, prefix) == Some(part) {
        reveal_strlit("]");
        let start = find(line, prefix)->0;
        law_find_is_the_first(line, prefix, start);
        let rest = line.skip(start + prefix.len());
        let end = find(rest, "]"@)->0;
        law_find_is_the_first(rest, "]"@, end);
        let head = line.take(start);
        let tail = rest.skip(end + 1);
        assert(rest.subrange(end, end + 1)[0] == ']');
        assert(line =~= head + prefix + part + "]"@ + tail) by {
            assert forall|j: int| start <= j < start + prefix.len() implies line[j] == prefix[j
                - start] by {
                assert(line.subrange(start, start + prefix.len())[j - start] == prefix[j - start]);
            }
        }
        if part.contains(']') {
            let j = choose|j: int| 0 <= j < part.len() && part[j] == ']';
            assert(rest.subrange(j, j + 1) =~= "]"@);
            assert(occurs_at(rest, "]"@, j));
        }
    }
    if stands_in_brackets(line, prefix, part) {
        let (head, tail) = choose|head: Seq<char>, tail: Seq<char>|
            line == #[trigger] (head + prefix + part + "]"@ + tail) && forall|j: int|
                0 <= j < head.len() ==> !occurs_at(line, prefix, j);
        law_bracketed_part_is_found(head, prefix, part, tail);
    }
}

/// A line holds a request exactly when something stands in the brackets of
/// `FOX-RefereeSystem: SerialProtocolRequest[...]`, and then the request is all of it; it
/// holds a short serial number exactly when something other than white space stands in those
/// of `SerialProtocolShortSN[...]`, and then the number is that without white space around it.
pub proof fn law_line_holds_what_was_printed(line: Seq<char>, hex: Seq<char>, sn: Seq<char>)
    ensures
        protocol_hex(line) == Some(hex) <==> hex.len() > 0 && stands_in_brackets(
            line,
            "FOX-RefereeSystem: SerialProtocolRequest["@,
            hex,
        ),
        short_sn(line) == Some(sn) <==> sn.len() > 0 && exists|raw: Seq<char>| #[trigger]
            stands_in_brackets(line, "SerialProtocolShortSN["@, raw) && trimmed(
                raw,
                CharClass::WhiteSpace,
            ) == sn,
{
    law_extracted_part_stands_in_brackets(line, REQUEST_PREFIX@, hex);
    if short_sn(line) == Some(sn) {
        let raw = bracketed(line, SHORT_SN_PREFIX@)->0;
        law_extracted_part_stands_in_brackets(line, SHORT_SN_PREFIX@, raw);
    }
    if sn.len() > 0 && exists|raw: Seq<char>| #[trigger]
        stands_in_brackets(line, "SerialProtocolShortSN["@, raw) && trimmed(
            raw,
            CharClass::WhiteSpace,
        ) == sn {
        let raw = choose|raw: Seq<char>| #[trigger]
            stands_in_brackets(line, "SerialProtocolShortSN["@, raw) && trimmed(
                raw,
                CharClass::WhiteSpace,
            ) == sn;
        law_extracted_part_stands_in_brackets(line, SHORT_SN_PREFIX@, raw);
    }
}

// ---------------------------------------------------------------------------
// Hexadecimal bytes
// ---------------------------------------------------------------------------

/// The byte that two characters spell: two hexadecimal digits, or one behind a plus sign.
pub open spec fn pair_value(a: char, b: char) -> Option<u8> {
    match (hex_value(a), hex_value(b)) {
        (Some(high), Some(low)) => Some((16 * high + low) as u8),
        (None, Some(low)) if a == '+' => Some(low as u8),
        _ => None,
    }
}

/// The bytes that the characters of `s` spell two by two, or the first two that spell none.
/// A single character that is left over at the end does not count.
pub open spec fn decoded_pairs(s: Seq<char>) -> Result<Seq<u8>, Seq<char>>
    decreases s.len(),
{
    if s.len() < 2 {
        Ok(Seq::empty())
    } else {
        match pair_value(s[0], s[1]) {
            None => Err(s.take(2)),
            Some(byte) => match decoded_pairs(s.skip(2)) {
                Ok(rest) => Ok(seq![byte] + rest),
                Err(pair) => Err(pair),
            },
        }
    }
}

/// True when `s` does not break off in the middle of a byte: its length in UTF-8 is odd,
/// which is refused at once, or its characters come in pairs, or a pair that spells no
/// byte stands before the one that is left over.
pub open spec fn is_whole_hex(s: Seq<char>) -> bool {
    encode_utf8(s).len() % 2 != 0 || s.len() % 2 == 0 || decoded_pairs(s) is Err
}

/// The bytes that `s` spells, or what is wrong with it.
pub open spec fn decoded_hex(s: Seq<char>) -> Result<Seq<u8>, Seq<char>> {
    if encode_utf8(s).len() % 2 != 0 {
        Err("hex length must be even"@)
    } else {
        match decoded_pairs(s) {
            Ok(bytes) => Ok(bytes),
            Err(pair) => Err(
                "invalid hex '"@ + pair + "': "@ + "invalid digit found in string"@,
            ),
        }
    }
}

/// Reads the byte that two characters spell.
fn read_pair(a: char, b: char) -> (out: Option<u8>)
    ensures
        out == pair_value(a, b),
{
    match (read_hex_digit(a), read_hex_digit(b)) {
        (Some(high), Some(low)) => Some(16 * high + low),
        (None, Some(low)) => if a == '+' {
            Some(low)
        } else {
            None
        },
        _ => None,
    }
}

/// Reads the bytes that `chars` spell two by two, or finds where the first two stand that spell none.
fn read_pairs(chars: &Vec<char>) -> (out: Result<Vec<u8>, usize>)
    ensures
        match out {
            Ok(bytes) => decoded_pairs(chars@) == Ok::<Seq<u8>, Seq<char>>(bytes@),
            Err(at) => at + 2 <= chars.len() && decoded_pairs(chars@) == Err::<
                Seq<u8>,
                Seq<char>,
            >(chars@.subrange(at as int, at + 2)),
        },
{
    let mut bytes: Vec<u8> = Vec::new();
    let mut i: usize = 0;
    proof {
        assert(chars@.skip(0) =~= chars@);
    }
    while chars.len() - i >= 2
        invariant
            i <= chars.len(),
            match decoded_pairs(chars@.skip(i as int)) {
                Ok(rest) => decoded_pairs(chars@) == Ok::<Seq<u8>, Seq<char>>(bytes@ + rest),
                Err(pair) => decoded_pairs(chars@) == Err::<Seq<u8>, Seq<char>>(pair),
            },
        decreases chars.len() - i,
    {
        let ghost rest = chars@.skip(i as int);
        let ghost before = bytes@;
        proof {
            assert(rest[0] == chars@[i as int]);
            assert(rest[1] == chars@[i + 1]);
            assert(rest.take(2) =~= chars@.subrange(i as int, i + 2));
            assert(rest.skip(2) =~= chars@.skip(i + 2));
        }
        match read_pair(chars[i], chars[i + 1]) {
            Some(byte) => {
                bytes.push(byte);
                proof {
                    if let Ok(more) = decoded_pairs(rest.skip(2)) {
                        assert(before + (seq![byte] + more) =~= bytes@ + more);
                    }
                }
            },
            None => {
                return Err(i);
            },
        }
        i = i + 2;
    }
    assert(bytes@ + Seq::<u8>::empty() =~= bytes@);
    Ok(bytes)
}

/// Tests whether `hex` does not break off in the middle of a byte.
pub fn hex_is_whole(hex: &str) -> (r: bool)
    ensures
        r == is_whole_hex(hex@),
{
    if hex.as_bytes().len() % 2 != 0 {
        return true;
    }
    let chars = chars_of(hex);
    if chars.len() % 2 == 0 {
        return true;
    }
    read_pairs(&chars).is_err()
}

/// Reads hexadecimal bytes.
pub fn hex_to_bytes(hex: &str) -> (out: Result<Vec<u8>, String>)
    requires
        is_whole_hex(hex@),
    ensures
        match out {
            Ok(bytes) => decoded_hex(hex@) == Ok::<Seq<u8>, Seq<char>>(bytes@),
            Err(message) => decoded_hex(hex@) == Err::<Seq<u8>, Seq<char>>(message@),
        },
{
    if hex.as_bytes().len() % 2 != 0 {
        return Err("hex length must be even".to_string());
    }
    let chars = chars_of(hex);
    match read_pairs(&chars) {
        Ok(bytes) => Ok(bytes),
        Err(at) => {
            let mut message = "invalid hex '".to_string();
            message.push(chars[at]);
            message.push(chars[at + 1]);
            message.append("': ");
            message.append("invalid digit found in string");
            proof {
                let pair = chars@.subrange(at as int, at + 2);
                assert(message@ =~= "invalid hex '"@ + pair + "': "@
                    + "invalid digit found in string"@);
            }
            Err(message)
        },
    }
}

/// True when `c` is the hexadecimal digit, of either case, with the value `d`.
pub open spec fn is_hex_digit(c: char, d: int) -> bool {
    c == "0123456789ABCDEF"@[d] || c == "0123456789abcdef"@[d]
}

/// Two characters spell a byte exactly when they are the digits of its high and its low
/// half, or when the byte is below sixteen and they are a plus sign and its digit.
pub proof fn law_two_characters_spell_a_byte(a: char, b: char, v: u8)
    ensures
        pair_value(a, b) == Some(v) <==> (is_hex_digit(a, v as int / 16) && is_hex_digit(
            b,
            v as int % 16,
        )) || (a == '+' && v < 16 && is_hex_digit(b, v as int)),
{
    law_hex_value_is_the_place(a, v as nat / 16);
    law_hex_value_is_the_place(b, v as nat % 16);
    law_hex_value_is_the_place(b, v as nat);
    reveal_strlit("0123456789ABCDEF");
    reveal_strlit("0123456789abcdef");
}

/// Where the bytes of decoded characters come from.
proof fn lemma_pairs_one_by_one(s: Seq<char>)
    ensures
        match decoded_pairs(s) {
            Ok(data) => data.len() == s.len() / 2 && forall|i: int|
                0 <= i < data.len() ==> pair_value(s[2 * i], s[2 * i + 1]) == Some(
                    #[trigger] data[i],
                ),
            Err(pair) => exists|k: int|
                {
                    &&& 0 <= k
                    &&& 2 * k + 2 <= s.len()
                    &&& pair == #[trigger] s.subrange(2 * k, 2 * k + 2)
                    &&& pair_value(s[2 * k], s[2 * k + 1]) is None
                },
        },
    decreases s.len(),
{
    if s.len() >= 2 {
        let rest = s.skip(2);
        lemma_pairs_one_by_one(rest);
        match decoded_pairs(s) {
            Ok(data) => {
                let more = decoded_pairs(rest)->Ok_0;
                assert forall|i: int| 0 <= i < data.len() implies pair_value(
                    s[2 * i],
                    s[2 * i + 1],
                ) == Some(#[trigger] data[i]) by {
                    if i > 0 {
                        assert(data[i] == more[i - 1]);
                        assert(rest[2 * (i - 1)] == s[2 * i]);
                        assert(rest[2 * (i - 1) + 1] == s[2 * i + 1]);
                    }
                }
            },
            Err(pair) => {
                if pair_value(s[0], s[1]) is None {
                    let k: int = 0;
                    assert(pair =~= s.subrange(2 * k, 2 * k + 2));
                } else {
                    let k = choose|k: int|
                        {
                            &&& 0 <= k
                            &&& 2 * k + 2 <= rest.len()
                            &&& pair == #[trigger] rest.subrange(2 * k, 2 * k + 2)
                            &&& pair_value(rest[2 * k], rest[2 * k + 1]) is None
                        };
                    assert(pair =~= s.subrange(2 * (k + 1), 2 * (k + 1) + 2));
                    assert(rest[2 * k] == s[2 * (k + 1)]);
                    assert(rest[2 * k + 1] == s[2 * (k + 1) + 1]);
                }
            },
        }
    }
}

/// A text of characters in pairs is read exactly when each pair spells a byte, and then byte
/// `i` is the one that pair `i` spells; otherwise the error names a pair that spells none. A
/// text of odd length in UTF-8 is refused.
pub proof fn law_hex_is_read_pair_by_pair(s: Seq<char>, data: Seq<u8>)
    requires
        s.len() % 2 == 0,
    ensures
        is_whole_hex(s),
        decoded_hex(s) == Ok::<Seq<u8>, Seq<char>>(data) <==> encode_utf8(s).len() % 2 == 0
            && s.len() == 2 * data.len() && forall|i: int|
            0 <= i < data.len() ==> pair_value(s[2 * i], s[2 * i + 1]) == Some(#[trigger] data[i]),
        decoded_hex(s) matches Err(message) ==> if encode_utf8(s).len() % 2 != 0 {
            message == "hex length must be even"@
        } else {
            exists|k: int|
                {
                    &&& 0 <= k
                    &&& 2 * k + 2 <= s.len()
                    &&& message == "invalid hex '"@ + #[trigger] s.subrange(2 * k, 2 * k + 2)
                        + "': "@ + "invalid digit found in string"@
                    &&& pair_value(s[2 * k], s[2 * k + 1]) is None
                }
        },
{
    lemma_pairs_one_by_one(s);
    if encode_utf8(s).len() % 2 == 0 && s.len() == 2 * data.len() && forall|i: int|
        0 <= i < data.len() ==> pair_value(s[2 * i], s[2 * i + 1]) == Some(#[trigger] data[i]) {
        match decoded_pairs(s) {
            Ok(read) => {
                assert forall|i: int| 0 <= i < data.len() implies read[i] == data[i] by {
                    assert(pair_value(s[2 * i], s[2 * i + 1]) == Some(read[i]));
                }
                assert(read =~= data);
            },
            Err(pair) => {
                let k = choose|k: int|
                    {
                        &&& 0 <= k
                        &&& 2 * k + 2 <= s.len()
                        &&& pair == #[trigger] s.subrange(2 * k, 2 * k + 2)
                        &&& pair_value(s[2 * k], s[2 * k + 1]) is None
                    };
                assert(pair_value(s[2 * k], s[2 * k + 1]) == Some(data[k]));
            },
        }
    }
}

/// A text of odd length in UTF-8 is refused for that, and no text of an odd number of
/// characters is read.
pub proof fn law_odd_hex_is_refused(s: Seq<char>)
    ensures
        encode_utf8(s).len() % 2 != 0 ==> decoded_hex(s) == Err::<Seq<u8>, Seq<char>>(
            "hex length must be even"@,
        ),
        s.len() % 2 != 0 && is_ascii_chars(s) ==> decoded_hex(s) == Err::<Seq<u8>, Seq<char>>(
            "hex length must be even"@,
        ),
        s.len() % 2 != 0 && is_whole_hex(s) ==> decoded_hex(s) is Err,
{
    if is_ascii_chars(s) {
        is_ascii_chars_encode_utf8(s);
    }
}

/// A text of ASCII characters never breaks off in the middle of a byte unnoticed.
pub proof fn law_ascii_hex_is_whole(s: Seq<char>)
    requires
        is_ascii_chars(s),
    ensures
        is_whole_hex(s),
{
    is_ascii_chars_encode_utf8(s);
}

/// The bytes in hexadecimal, with the first byte set apart.
proof fn lemma_hex_of_first(data: Seq<u8>, upper: bool)
    requires
        data.len() > 0,
    ensures
        hex_of_bytes(data, upper) == hex_digits(data[0] as nat, 2, upper) + hex_of_bytes(
            data.drop_first(),
            upper,
        ),
    decreases data.len(),
{
    let first = hex_digits(data[0] as nat, 2, upper);
    if data.len() == 1 {
        assert(data.drop_last() =~= Seq::<u8>::empty());
        assert(data.drop_first() =~= Seq::<u8>::empty());
        assert(hex_of_bytes(data, upper) =~= first + hex_of_bytes(data.drop_first(), upper));
    } else {
        let init = data.drop_last();
        lemma_hex_of_first(init, upper);
        assert(init.drop_first() =~= data.drop_first().drop_last());
        assert(hex_of_bytes(data, upper) =~= first + hex_of_bytes(data.drop_first(), upper));
    }
}

/// The two digits of a byte.
proof fn lemma_hex_pair(b: u8, upper: bool)
    ensures
        hex_digits(b as nat, 2, upper) == seq![
            hex_char((b / 16) as nat, upper),
            hex_char((b % 16) as nat, upper),
        ],
        pair_value(hex_char((b / 16) as nat, upper), hex_char((b % 16) as nat, upper)) == Some(b),
{
    reveal_with_fuel(hex_digits, 3);
    assert(hex_digits(b as nat, 2, upper) =~= seq![
        hex_char((b / 16) as nat, upper),
        hex_char((b % 16) as nat, upper),
    ]);
}

/// Two hexadecimal digits stand for each byte, and all of them are ASCII digits or letters.
pub proof fn lemma_hex_is_plain(data: Seq<u8>, upper: bool)
    ensures
        hex_of_bytes(data, upper).len() == 2 * data.len(),
        forall|i: int|
            0 <= i < hex_of_bytes(data, upper).len() ==> hex_value(
                #[trigger] hex_of_bytes(data, upper)[i],
            ) is Some,
    decreases data.len(),
{
    if data.len() > 0 {
        lemma_hex_is_plain(data.drop_last(), upper);
        lemma_hex_pair(data.last(), upper);
        let init = hex_of_bytes(data.drop_last(), upper);
        let all = hex_of_bytes(data, upper);
        assert forall|i: int| 0 <= i < all.len() implies hex_value(#[trigger] all[i]) is Some by {
            if i < init.len() {
                assert(all[i] == init[i]);
                assert(hex_value(init[i]) is Some);
            }
        }
    }
}

/// Reading bytes that were written in hexadecimal, of either case, gives those bytes back.
pub proof fn law_hex_reads_back(data: Seq<u8>, upper: bool)
    ensures
        is_whole_hex(hex_of_bytes(data, upper)),
        decoded_hex(hex_of_bytes(data, upper)) == Ok::<Seq<u8>, Seq<char>>(data),
{
    let s = hex_of_bytes(data, upper);
    lemma_hex_is_plain(data, upper);
    assert(is_ascii_chars(s)) by {
        assert forall|i: int| 0 <= i < s.len() implies '\0' <= #[trigger] s[i] <= '\u{7f}' by {
            assert(hex_value(s[i]) is Some);
        }
    }
    is_ascii_chars_encode_utf8(s);
    lemma_pairs_read_back(data, upper);
}

proof fn lemma_pairs_read_back(data: Seq<u8>, upper: bool)
    ensures
        decoded_pairs(hex_of_bytes(data, upper)) == Ok::<Seq<u8>, Seq<char>>(data),
    decreases data.len(),
{
    let s = hex_of_bytes(data, upper);
    if data.len() == 0 {
        assert(data =~= Seq::<u8>::empty());
    } else {
        lemma_hex_of_first(data, upper);
        lemma_hex_pair(data[0], upper);
        lemma_pairs_read_back(data.drop_first(), upper);
        assert(s.skip(2) =~= hex_of_bytes(data.drop_first(), upper));
        assert(seq![data[0]] + data.drop_first() =~= data);
    }
}

// ---------------------------------------------------------------------------
// Lines of the device, and lines for it
// ---------------------------------------------------------------------------

/// The events that a line of the device stands for: its short serial number first, then a request.
pub open spec fn line_events(line: Seq<char>) -> Seq<EventView> {
    let text = trimmed_end(line, CharClass::LineEnd);
    let first = match short_sn(text) {
        Some(sn) => seq![EventView::ShortSn(sn)],
        None => Seq::empty(),
    };
    let second = match protocol_hex(text) {
        Some(hex) => seq![EventView::ProtocolHex(hex)],
        None => Seq::empty(),
    };
    first + second
}

/// The events of a sequence as values of the specification.
pub open spec fn event_views(events: Seq<Event>) -> Seq<EventView> {
    Seq::new(events.len(), |i: int| events[i]@)
}

/// Every event of a list is seen with all that was printed.
pub proof fn law_events_are_seen_whole(events: Seq<Event>, i: int)
    requires
        0 <= i < events.len(),
    ensures
        event_views(events).len() == events.len(),
        match events[i] {
            Event::ShortSn(sn) => event_views(events)[i] == EventView::ShortSn(sn@),
            Event::ProtocolHex(hex) => event_views(events)[i] == EventView::ProtocolHex(hex@),
            Event::SerialClosed => event_views(events)[i] == EventView::SerialClosed,
            Event::WsClosed => event_views(events)[i] == EventView::WsClosed,
        },
{
}

/// A line stands for its short serial number, then for its request, each once and only
/// where it is printed.
pub proof fn law_line_says_each_thing_once(text: Seq<char>, end: Seq<char>)
    requires
        only_line_ends(end),
        text.len() > 0 ==> text.last() != '\r' && text.last() != '\n',
    ensures
        line_events(text + end) == match (short_sn(text), protocol_hex(text)) {
            (Some(sn), Some(hex)) => seq![EventView::ShortSn(sn), EventView::ProtocolHex(hex)],
            (Some(sn), None) => seq![EventView::ShortSn(sn)],
            (None, Some(hex)) => seq![EventView::ProtocolHex(hex)],
            (None, None) => Seq::empty(),
        },
{
    law_line_end_is_cut_off(text, end);
    assert(line_events(text + end) =~= match (short_sn(text), protocol_hex(text)) {
        (Some(sn), Some(hex)) => seq![EventView::ShortSn(sn), EventView::ProtocolHex(hex)],
        (Some(sn), None) => seq![EventView::ShortSn(sn)],
        (None, Some(hex)) => seq![EventView::ProtocolHex(hex)],
        (None, None) => Seq::empty(),
    });
}

/// An empty line holds no prefix.
proof fn lemma_nothing_in_empty_line(line: Seq<char>)
    requires
        line.len() == 0,
    ensures
        short_sn(line) is None,
        protocol_hex(line) is None,
{
    reveal_strlit("FOX-RefereeSystem: SerialProtocolRequest[");
    reveal_strlit("SerialProtocolShortSN[");
}

/// Finds the events that a line of the device stands for.
pub fn events_of_line(line: &str) -> (events: Vec<Event>)
    ensures
        event_views(events@) == line_events(line@),
{
    let mut events: Vec<Event> = Vec::new();
    let text = trim_end(line, CharClass::LineEnd);
    if text.is_empty() {
        proof {
            lemma_nothing_in_empty_line(text@);
            assert(event_views(events@) =~= line_events(line@));
        }
        return events;
    }
    if let Some(sn) = extract_short_sn(text) {
        events.push(Event::ShortSn(sn));
    }
    if let Some(hex) = extract_protocol_hex(text) {
        events.push(Event::ProtocolHex(hex.to_string()));
    }
    assert(event_views(events@) =~= line_events(line@));
    events
}

/// The command that hands bytes from the server to the device.
pub open spec fn send_command(data: Seq<u8>) -> Seq<char> {
    "referee send "@ + hex_of_bytes(data, true) + "\n"@
}

/// Writes the command that hands `data` to the device, as bytes for the serial line.
pub fn send_line(data: &[u8]) -> (line: Vec<u8>)
    ensures
        line@ == encode_utf8(send_command(data@)),
{
    let mut text = "referee send ".to_string();
    push_hex_of_bytes(&mut text, data, true);
    text.append("\n");
    slice_to_vec(text.as_str().as_bytes())
}

/// Writes the command that asks the device for its short serial number.
pub fn heartbeat_line() -> (line: Vec<u8>)
    ensures
        line@ == encode_utf8(HEARTBEAT_COMMAND@),
{
    slice_to_vec(HEARTBEAT_COMMAND.as_bytes())
}

/// The bytes that the server sent can be read back from the command: they stand in
/// hexadecimal behind its first 13 characters, up to the line feed at its end.
pub proof fn law_send_command_carries_the_data(data: Seq<u8>)
    ensures
        ({
            let command = send_command(data);
            let hex = command.subrange(13, command.len() - 1);
            &&& command.last() == '\n'
            &&& forall|i: int| 0 <= i < command.len() - 1 ==> command[i] != '\n'
            &&& decoded_hex(hex) == Ok::<Seq<u8>, Seq<char>>(data)
        }),
{
    reveal_strlit("referee send ");
    reveal_strlit("\n");
    let hex = hex_of_bytes(data, true);
    let command = send_command(data);
    lemma_hex_is_plain(data, true);
    law_hex_reads_back(data, true);
    assert(command.subrange(13, command.len() - 1) =~= hex);
    assert forall|i: int| 0 <= i < command.len() - 1 implies command[i] != '\n' by {
        if i >= 13 {
            assert(command[i] == hex[i - 13]);
            assert(hex_value(hex[i - 13]) is Some);
        }
    }
}

/// The bytes that go to the device are the command word, then for each byte of the server
/// its two digits, the high half first and letters in upper case, then a line feed.
pub proof fn law_command_is_written_byte_by_byte(data: Seq<u8>)
    ensures
        ({
            let row = "0123456789ABCDEF"@;
            let line = encode_utf8(send_command(data));
            &&& line.len() == 14 + 2 * data.len()
            &&& forall|i: int| 0 <= i < 13 ==> #[trigger] line[i] == "referee send "@[i] as u8
            &&& forall|i: int|
                #![trigger data[i]]
                0 <= i < data.len() ==> line[13 + 2 * i] == row[data[i] as int / 16] as u8
                    && line[14 + 2 * i] == row[data[i] as int % 16] as u8
            &&& line.last() == 10
        }),
{
    reveal_strlit("referee send ");
    reveal_strlit("\n");
    let row = "0123456789ABCDEF"@;
    let command = send_command(data);
    let hex = hex_of_bytes(data, true);
    lemma_hex_is_plain(data, true);
    law_hex_of_bytes_is_byte_by_byte(data);
    assert forall|i: int| 0 <= i < command.len() implies '\0' <= #[trigger] command[i]
        <= '\u{7f}' by {
        if 13 <= i < 13 + hex.len() {
            assert(command[i] == hex[i - 13]);
            assert(hex_value(hex[i - 13]) is Some);
        }
    }
    assert(is_ascii_chars(command));
    is_ascii_chars_encode_utf8(command);
    let line = encode_utf8(command);
    assert forall|i: int| 0 <= i < command.len() implies line[i] == command[i] as u8 by {
        assert(command[i] as u8 == line[i]);
    }
    assert forall|i: int| #![trigger data[i]] 0 <= i < data.len() implies line[13 + 2 * i]
        == row[data[i] as int / 16] as u8 && line[14 + 2 * i] == row[data[i] as int % 16] as u8 by {
        assert(command[13 + 2 * i] == hex[2 * i]);
        assert(command[14 + 2 * i] == hex[2 * i + 1]);
    }
}

/// A device that prints bytes in hexadecimal as a request, somewhere in a line, has
/// those bytes read from it, when no other request stands before them in the line.
pub proof fn law_request_carries_the_data(
    head: Seq<char>,
    data: Seq<u8>,
    upper: bool,
    tail: Seq<char>,
)
    requires
        data.len() > 0,
        forall|j: int|
            0 <= j < head.len() ==> !occurs_at(
                head + REQUEST_PREFIX@ + hex_of_bytes(data, upper) + "]"@ + tail,
                REQUEST_PREFIX@,
                j,
            ),
    ensures
        protocol_hex(head + REQUEST_PREFIX@ + hex_of_bytes(data, upper) + "]"@ + tail) matches Some(
            hex,
        ) && is_whole_hex(hex) && decoded_hex(hex) == Ok::<Seq<u8>, Seq<char>>(data),
{
    let hex = hex_of_bytes(data, upper);
    lemma_hex_is_plain(data, upper);
    if hex.contains(']') {
        let i = choose|i: int| 0 <= i < hex.len() && hex[i] == ']';
        assert(hex_value(hex[i]) is Some);
    }
    law_bracketed_part_is_found(head, REQUEST_PREFIX@, hex, tail);
    law_hex_reads_back(data, upper);
}

} // verus!

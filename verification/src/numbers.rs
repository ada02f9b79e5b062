//! Numbers in text: decimal and hexadecimal digits, written and read.

use crate::text::{chars_of, free_of_space, is_white_space};
use vstd::prelude::*;
use vstd::string::*;

verus! {

// ---------------------------------------------------------------------------
// Decimal
// ---------------------------------------------------------------------------

/// The decimal digit with the value `d`, for `d` below ten.
pub open spec fn digit_char(d: nat) -> char {
    (48 + d) as char
}

/// The decimal digits of `n`, without leading zeros.
pub open spec fn decimal(n: nat) -> Seq<char>
    decreases n,
{
    if n < 10 {
        seq![digit_char(n)]
    } else {
        decimal(n / 10).push(digit_char(n % 10))
    }
}

/// The decimal digits of `n`, with zeros in front up to `width` characters.
pub open spec fn zero_padded(n: nat, width: nat) -> Seq<char> {
    let digits = decimal(n);
    if digits.len() < width {
        Seq::new((width - digits.len()) as nat, |i: int| '0') + digits
    } else {
        digits
    }
}

/// The number `n` with its sign, with zeros behind the sign up to `width` characters in all.
pub open spec fn signed_zero_padded(n: int, width: nat) -> Seq<char> {
    if n >= 0 {
        zero_padded(n as nat, width)
    } else {
        seq!['-'] + zero_padded((-n) as nat, if width > 0 {
            (width - 1) as nat
        } else {
            0
        })
    }
}

/// Appends the decimal digits of `n`.
pub fn push_decimal(out: &mut String, n: u64)
    ensures
        final(out)@ == old(out)@ + decimal(n as nat),
    decreases n,
{
    if n >= 10 {
        push_decimal(out, n / 10);
    }
    let d = (n % 10) as u8;
    out.push((48u8 + d) as char);
    assert(out@ =~= old(out)@ + decimal(n as nat));
}

/// The decimal digits of `n` as a text.
pub fn decimal_text(n: u64) -> (out: String)
    ensures
        out@ == decimal(n as nat),
{
    let mut out = String::new();
    push_decimal(&mut out, n);
    assert(out@ =~= decimal(n as nat));
    out
}

/// Appends `n` in decimal, with zeros in front up to `width` characters.
pub fn push_zero_padded(out: &mut String, n: u64, width: usize)
    ensures
        final(out)@ == old(out)@ + zero_padded(n as nat, width as nat),
{
    let digits = decimal_text(n);
    let len = digits.as_str().unicode_len();
    let ghost before = out@;
    let missing: usize = if len < width {
        width - len
    } else {
        0
    };
    for i in 0..missing
        invariant
            out@ == before + Seq::new(i as nat, |j: int| '0'),
    {
        out.push('0');
        assert(out@ =~= before + Seq::new((i + 1) as nat, |j: int| '0'));
    }
    out.append(digits.as_str());
    assert(out@ =~= before + zero_padded(n as nat, width as nat));
}

/// Appends `n` in decimal with its sign, with zeros behind the sign up to `width` characters.
pub fn push_signed_zero_padded(out: &mut String, n: i32, width: usize)
    ensures
        final(out)@ == old(out)@ + signed_zero_padded(n as int, width as nat),
{
    let ghost before = out@;
    if n >= 0 {
        push_zero_padded(out, n as u64, width);
    } else {
        out.push('-');
        let size: i64 = -(n as i64);
        push_zero_padded(
            out,
            size as u64,
            if width > 0 {
                width - 1
            } else {
                0
            },
        );
        assert(out@ =~= before + signed_zero_padded(n as int, width as nat));
    }
}

/// True when `c` is a decimal digit.
pub open spec fn is_digit(c: char) -> bool {
    '0' <= c <= '9'
}

/// True when `s` is made of decimal digits only.
pub open spec fn all_digits(s: Seq<char>) -> bool {
    forall|i: int| 0 <= i < s.len() ==> is_digit(#[trigger] s[i])
}

/// The number whose decimal digits are `s`.
pub open spec fn value_of(s: Seq<char>) -> nat
    decreases s.len(),
{
    if s.len() == 0 {
        0
    } else {
        10 * value_of(s.drop_last()) + (s.last() as nat - 48) as nat
    }
}

/// The number that `s` spells with one or more decimal digits, if it is at most `max`.
pub open spec fn parsed_digits(s: Seq<char>, max: nat) -> Option<nat> {
    if s.len() > 0 && all_digits(s) && value_of(s) <= max {
        Some(value_of(s))
    } else {
        None
    }
}

/// The unsigned number that `s` spells: an optional `+`, then digits; at most `max`.
pub open spec fn parsed_unsigned(s: Seq<char>, max: nat) -> Option<nat> {
    if s.len() > 0 && s[0] == '+' {
        parsed_digits(s.drop_first(), max)
    } else {
        parsed_digits(s, max)
    }
}

/// The 32-bit signed number that `s` spells: an optional sign, then digits.
pub open spec fn parsed_i32(s: Seq<char>) -> Option<int> {
    if s.len() > 0 && s[0] == '-' {
        match parsed_digits(s.drop_first(), 0x8000_0000) {
            Some(n) => Some(-(n as int)),
            None => None,
        }
    } else {
        match parsed_unsigned(s, 0x7fff_ffff) {
            Some(n) => Some(n as int),
            None => None,
        }
    }
}

/// More digits never make a smaller number.
proof fn lemma_value_grows(s: Seq<char>, k: int)
    requires
        0 <= k <= s.len(),
        all_digits(s),
    ensures
        value_of(s.take(k)) <= value_of(s),
    decreases s.len() - k,
{
    if k == s.len() {
        assert(s.take(k) =~= s);
    } else {
        lemma_value_grows(s, k + 1);
        assert(s.take(k + 1).drop_last() =~= s.take(k));
        assert(is_digit(s[k]));
    }
}

/// Reads the digits of `chars` from `from` on.
fn read_digits(chars: &Vec<char>, from: usize, max: u64) -> (out: Option<u64>)
    requires
        from <= chars.len(),
    ensures
        match out {
            Some(n) => parsed_digits(chars@.skip(from as int), max as nat) == Some(n as nat),
            None => parsed_digits(chars@.skip(from as int), max as nat) is None,
        },
{
    let ghost digits = chars@.skip(from as int);
    if from == chars.len() {
        return None;
    }
    let mut sum: u64 = 0;
    let mut i: usize = from;
    proof {
        assert(digits.take(0) =~= Seq::<char>::empty());
    }
    while i < chars.len()
        invariant
            from <= i <= chars.len(),
            digits == chars@.skip(from as int),
            all_digits(digits.take(i - from)),
            sum == value_of(digits.take(i - from)),
            sum <= max,
        decreases chars.len() - i,
    {
        let c = chars[i];
        proof {
            assert(digits[i - from] == c);
            assert(digits.take(i + 1 - from).drop_last() =~= digits.take(i - from));
        }
        if !('0' <= c && c <= '9') {
            assert(!is_digit(digits[i - from]));
            return None;
        }
        let d = c as u64 - 48;
        let next: u128 = sum as u128 * 10 + d as u128;
        if next > max as u128 {
            proof {
                if all_digits(digits) {
                    lemma_value_grows(digits, i + 1 - from);
                }
            }
            return None;
        }
        proof {
            assert forall|j: int| 0 <= j < i + 1 - from implies is_digit(
                #[trigger] digits.take(i + 1 - from)[j],
            ) by {
                if j < i - from {
                    assert(is_digit(digits.take(i - from)[j]));
                }
            }
        }
        sum = next as u64;
        i = i + 1;
    }
    assert(digits.take(chars.len() - from) =~= digits);
    Some(sum)
}

/// Reads an unsigned number of at most `max`.
pub fn parse_unsigned(s: &str, max: u64) -> (out: Option<u64>)
    ensures
        match out {
            Some(n) => parsed_unsigned(s@, max as nat) == Some(n as nat),
            None => parsed_unsigned(s@, max as nat) is None,
        },
{
    let chars = chars_of(s);
    proof {
        assert(s@.skip(0) =~= s@);
        if s@.len() > 0 {
            assert(s@.skip(1) =~= s@.drop_first());
        }
    }
    if chars.len() > 0 && chars[0] == '+' {
        read_digits(&chars, 1, max)
    } else {
        read_digits(&chars, 0, max)
    }
}

/// Reads a 32-bit signed number.
pub fn parse_i32(s: &str) -> (out: Option<i32>)
    ensures
        match out {
            Some(n) => parsed_i32(s@) == Some(n as int),
            None => parsed_i32(s@) is None,
        },
{
    let chars = chars_of(s);
    if chars.len() > 0 && chars[0] == '-' {
        assert(s@.skip(1) =~= s@.drop_first());
        match read_digits(&chars, 1, 0x8000_0000) {
            Some(n) => Some((-(n as i64)) as i32),
            None => None,
        }
    } else {
        match parse_unsigned(s, 0x7fff_ffff) {
            Some(n) => Some(n as i32),
            None => None,
        }
    }
}

/// The digits of a number are digits, and spell that number.
pub proof fn lemma_decimal_value(n: nat)
    ensures
        decimal(n).len() > 0,
        all_digits(decimal(n)),
        value_of(decimal(n)) == n,
    decreases n,
{
    if n < 10 {
        assert(decimal(n).drop_last() =~= Seq::<char>::empty());
        assert(value_of(Seq::<char>::empty()) == 0);
    } else {
        lemma_decimal_value(n / 10);
        assert(decimal(n).drop_last() =~= decimal(n / 10));
    }
}

/// A number in decimal is a word.
pub proof fn lemma_decimal_is_a_word(n: nat)
    ensures
        decimal(n).len() > 0,
        free_of_space(decimal(n)),
{
    lemma_decimal_value(n);
    assert forall|i: int| 0 <= i < decimal(n).len() implies !is_white_space(
        #[trigger] decimal(n)[i],
    ) by {
        assert(is_digit(decimal(n)[i]));
    }
}

/// A signed number in decimal is a word.
pub proof fn lemma_signed_is_a_word(n: int, width: nat)
    ensures
        signed_zero_padded(n, width).len() > 0,
        free_of_space(signed_zero_padded(n, width)),
{
    let w = if n >= 0 {
        width
    } else if width > 0 {
        (width - 1) as nat
    } else {
        0
    };
    let size = if n >= 0 {
        n as nat
    } else {
        (-n) as nat
    };
    lemma_padded_value(size, w);
    let digits = zero_padded(size, w);
    let text = signed_zero_padded(n, width);
    assert forall|i: int| 0 <= i < text.len() implies !is_white_space(#[trigger] text[i]) by {
        if n >= 0 {
            assert(is_digit(digits[i]));
        } else if i > 0 {
            assert(is_digit(digits[i - 1]));
        }
    }
}

/// Reading back a number that was written in decimal gives that number.
pub proof fn law_decimal_reads_back(n: nat, max: nat)
    requires
        n <= max,
    ensures
        parsed_unsigned(decimal(n), max) == Some(n),
{
    lemma_decimal_value(n);
    assert(is_digit(decimal(n)[0]));
}

/// Reading back a 32-bit number that was written with padding gives that number.
pub proof fn law_padded_reads_back(n: int, width: nat)
    requires
        -0x8000_0000 <= n <= 0x7fff_ffff,
    ensures
        parsed_i32(signed_zero_padded(n, width)) == Some(n),
{
    if n >= 0 {
        lemma_padded_value(n as nat, width);
        assert(is_digit(zero_padded(n as nat, width)[0]));
    } else {
        let w = if width > 0 {
            (width - 1) as nat
        } else {
            0
        };
        lemma_padded_value((-n) as nat, w);
        assert(signed_zero_padded(n, width).drop_first() =~= zero_padded((-n) as nat, w));
    }
}

/// Numbers below ten are written with the digit at their place in `0123456789`, and a number
/// with one digit more is written with that digit behind the others.
pub proof fn law_decimal_is_digit_by_digit(n: nat, d: nat)
    requires
        d < 10,
    ensures
        decimal(d) == seq!["0123456789"@[d as int]],
        n > 0 ==> decimal(10 * n + d) == decimal(n) + decimal(d),
{
    reveal_strlit("0123456789");
    assert(decimal(d) =~= seq!["0123456789"@[d as int]]);
    if n > 0 {
        assert((10 * n + d) / 10 == n);
        assert((10 * n + d) % 10 == d);
        assert(decimal(10 * n + d) =~= decimal(n) + decimal(d));
    }
}

/// Different numbers are written differently.
pub proof fn law_decimal_tells_numbers_apart(n: nat, m: nat)
    ensures
        decimal(n) == decimal(m) ==> n == m,
{
    lemma_decimal_value(n);
    lemma_decimal_value(m);
}

/// So many zeros.
pub open spec fn zeros(k: nat) -> Seq<char> {
    Seq::new(k, |i: int| '0')
}

/// Padding puts zeros in front of the digits, and only as many as are missing; a minus
/// sign stands in front of the zeros and counts.
pub proof fn law_padding_is_zeros_in_front(n: nat, width: nat)
    ensures
        ({
            let digits = decimal(n);
            let missing = if digits.len() < width {
                (width - digits.len()) as nat
            } else {
                0
            };
            &&& zero_padded(n, width) == zeros(missing) + digits
            &&& signed_zero_padded(n as int, width) == zeros(missing) + digits
        }),
        n > 0 ==> ({
            let digits = decimal(n);
            let missing = if digits.len() + 1 < width {
                (width - digits.len() - 1) as nat
            } else {
                0
            };
            signed_zero_padded(-(n as int), width) == "-"@ + zeros(missing) + digits
        }),
{
    reveal_strlit("-");
    let digits = decimal(n);
    lemma_decimal_value(n);
    let missing = if digits.len() < width {
        (width - digits.len()) as nat
    } else {
        0
    };
    assert(zero_padded(n, width) =~= zeros(missing) + digits);
    if n > 0 {
        let missing = if digits.len() + 1 < width {
            (width - digits.len() - 1) as nat
        } else {
            0
        };
        assert(signed_zero_padded(-(n as int), width) =~= "-"@ + zeros(missing) + digits);
    }
}

/// True when `s` is the number `n` in decimal, with any number of zeros in front.
pub open spec fn spells(s: Seq<char>, n: nat) -> bool {
    exists|k: nat| s == #[trigger] zeros(k) + decimal(n)
}

/// Digits are zeros and then a number.
proof fn lemma_digits_spell(s: Seq<char>)
    requires
        s.len() > 0,
        all_digits(s),
    ensures
        spells(s, value_of(s)),
    decreases s.len(),
{
    let front = s.drop_last();
    assert(is_digit(s[s.len() - 1]));
    let d = (s.last() as nat - 48) as nat;
    if front.len() == 0 {
        assert(value_of(front) == 0);
        assert(s =~= zeros(0) + decimal(d));
    } else {
        assert forall|i: int| 0 <= i < front.len() implies is_digit(#[trigger] front[i]) by {
            assert(is_digit(s[i]));
        }
        lemma_digits_spell(front);
        let v = value_of(front);
        let k = choose|k: nat| front == #[trigger] zeros(k) + decimal(v);
        law_decimal_is_digit_by_digit(v, d);
        assert(decimal(d) =~= seq![digit_char(d)]);
        assert(s =~= front + decimal(d));
        assert(value_of(s) == 10 * v + d);
        if v > 0 {
            assert(zeros(k) + (decimal(v) + decimal(d)) =~= front + decimal(d));
            assert(s == zeros(k) + decimal(value_of(s)));
        } else {
            assert(decimal(0) =~= seq!['0']);
            assert(zeros(k + 1) =~= front);
            assert(s == zeros(k + 1) + decimal(value_of(s)));
        }
    }
}

/// Zeros and then a number are digits that have its value.
proof fn lemma_spelled_value(s: Seq<char>, n: nat)
    requires
        spells(s, n),
    ensures
        s.len() > 0,
        all_digits(s),
        value_of(s) == n,
{
    let k = choose|k: nat| s == #[trigger] zeros(k) + decimal(n);
    lemma_decimal_value(n);
    lemma_zeros_value(zeros(k), decimal(n));
}

/// A text reads as an unsigned number exactly when it is that number in decimal, with zeros
/// or a plus sign in front or without, and the number is not too large.
pub proof fn law_unsigned_numbers_read(s: Seq<char>, n: nat, max: nat)
    ensures
        parsed_unsigned(s, max) == Some(n) <==> n <= max && (spells(s, n) || exists|t: Seq<char>|
            s == #[trigger] ("+"@ + t) && spells(t, n)),
{
    reveal_strlit("+");
    if parsed_unsigned(s, max) == Some(n) {
        if s[0] == '+' {
            let t = s.drop_first();
            lemma_digits_spell(t);
            assert(s =~= "+"@ + t);
        } else {
            lemma_digits_spell(s);
        }
    }
    if n <= max && spells(s, n) {
        lemma_spelled_value(s, n);
        assert(is_digit(s[0]));
    }
    if n <= max && exists|t: Seq<char>| s == #[trigger] ("+"@ + t) && spells(t, n) {
        let t = choose|t: Seq<char>| s == #[trigger] ("+"@ + t) && spells(t, n);
        lemma_spelled_value(t, n);
        assert(s.drop_first() =~= t);
    }
}

/// A text reads as a signed number exactly when it is that number in decimal, with zeros or
/// a sign in front or without, and the number fits in 32 bits.
pub proof fn law_signed_numbers_read(s: Seq<char>, n: nat)
    ensures
        parsed_i32(s) == Some(-(n as int)) && n > 0 <==> 0 < n <= 0x8000_0000 && exists|
            t: Seq<char>,
        |
            s == #[trigger] ("-"@ + t) && spells(t, n),
        parsed_i32(s) == Some(n as int) && n > 0 <==> n > 0 && parsed_unsigned(s, 0x7fff_ffff)
            == Some(n),
        parsed_i32(s) == Some(0int) <==> parsed_unsigned(s, 0x7fff_ffff) == Some(0nat) || exists|
            t: Seq<char>,
        |
            s == #[trigger] ("-"@ + t) && spells(t, 0),
{
    reveal_strlit("-");
    if parsed_i32(s) == Some(0int) && s[0] == '-' {
        let t = s.drop_first();
        lemma_digits_spell(t);
        assert(s =~= "-"@ + t);
    }
    if exists|t: Seq<char>| s == #[trigger] ("-"@ + t) && spells(t, 0) {
        let t = choose|t: Seq<char>| s == #[trigger] ("-"@ + t) && spells(t, 0);
        lemma_spelled_value(t, 0);
        assert(s.drop_first() =~= t);
    }
    if parsed_unsigned(s, 0x7fff_ffff) == Some(0nat) && s[0] == '-' {
        assert(is_digit(s[0]));
    }
    if parsed_i32(s) == Some(-(n as int)) && n > 0 {
        let t = s.drop_first();
        lemma_digits_spell(t);
        assert(s =~= "-"@ + t);
    }
    if 0 < n <= 0x8000_0000 && exists|t: Seq<char>| s == #[trigger] ("-"@ + t) && spells(t, n) {
        let t = choose|t: Seq<char>| s == #[trigger] ("-"@ + t) && spells(t, n);
        lemma_spelled_value(t, n);
        assert(s.drop_first() =~= t);
    }
    if parsed_unsigned(s, 0x7fff_ffff) == Some(n) {
        if s[0] == '-' {
            assert(is_digit(s[0]));
        }
    }
}

/// Zeros in front do not change the number.
pub proof fn lemma_padded_value(n: nat, width: nat)
    ensures
        zero_padded(n, width).len() > 0,
        all_digits(zero_padded(n, width)),
        value_of(zero_padded(n, width)) == n,
{
    lemma_decimal_value(n);
    let digits = decimal(n);
    if digits.len() < width {
        let zeros = Seq::new((width - digits.len()) as nat, |i: int| '0');
        lemma_zeros_value(zeros, digits);
    }
}

/// Zeros in front of digits do not change the number.
proof fn lemma_zeros_value(zeros: Seq<char>, digits: Seq<char>)
    requires
        forall|i: int| 0 <= i < zeros.len() ==> zeros[i] == '0',
        all_digits(digits),
    ensures
        all_digits(zeros + digits),
        value_of(zeros + digits) == value_of(digits),
    decreases zeros.len() + digits.len(),
{
    let both = zeros + digits;
    if digits.len() > 0 {
        assert(both.drop_last() =~= zeros + digits.drop_last());
        lemma_zeros_value(zeros, digits.drop_last());
        assert(is_digit(digits[digits.len() - 1]));
        assert forall|i: int| 0 <= i < both.len() implies is_digit(#[trigger] both[i]) by {
            if i < both.len() - 1 {
                assert(is_digit((zeros + digits.drop_last())[i]));
            }
        }
    } else if zeros.len() > 0 {
        assert(both.drop_last() =~= zeros.drop_last() + digits);
        lemma_zeros_value(zeros.drop_last(), digits);
        assert(both =~= zeros);
    } else {
        assert(both =~= digits);
    }
}

// ---------------------------------------------------------------------------
// Hexadecimal
// ---------------------------------------------------------------------------

/// The hexadecimal digit with the value `d`, for `d` below sixteen.
pub open spec fn hex_char(d: nat, upper: bool) -> char {
    if d < 10 {
        (48 + d) as char
    } else if upper {
        (55 + d) as char
    } else {
        (87 + d) as char
    }
}

/// The lowest `width` hexadecimal digits of `n`.
pub open spec fn hex_digits(n: nat, width: nat, upper: bool) -> Seq<char>
    decreases width,
{
    if width == 0 {
        Seq::empty()
    } else {
        hex_digits(n / 16, (width - 1) as nat, upper).push(hex_char(n % 16, upper))
    }
}

/// Appends the lowest `width` hexadecimal digits of `n`.
pub fn push_hex(out: &mut String, n: u64, width: usize, upper: bool)
    ensures
        final(out)@ == old(out)@ + hex_digits(n as nat, width as nat, upper),
    decreases width,
{
    if width > 0 {
        push_hex(out, n / 16, width - 1, upper);
        let d = (n % 16) as u8;
        out.push(
            if d < 10 {
                (48u8 + d) as char
            } else if upper {
                (55u8 + d) as char
            } else {
                (87u8 + d) as char
            },
        );
    }
    assert(out@ =~= old(out)@ + hex_digits(n as nat, width as nat, upper));
}

/// The value of a hexadecimal digit of either case.
pub open spec fn hex_value(c: char) -> Option<nat> {
    if '0' <= c <= '9' {
        Some((c as nat - 48) as nat)
    } else if 'A' <= c <= 'F' {
        Some((c as nat - 55) as nat)
    } else if 'a' <= c <= 'f' {
        Some((c as nat - 87) as nat)
    } else {
        None
    }
}

/// Reads a hexadecimal digit of either case.
pub fn read_hex_digit(c: char) -> (out: Option<u8>)
    ensures
        match out {
            Some(v) => hex_value(c) == Some(v as nat) && v < 16,
            None => hex_value(c) is None,
        },
{
    if '0' <= c && c <= '9' {
        Some((c as u32 - 48) as u8)
    } else if 'A' <= c && c <= 'F' {
        Some((c as u32 - 55) as u8)
    } else if 'a' <= c && c <= 'f' {
        Some((c as u32 - 87) as u8)
    } else {
        None
    }
}

/// A hexadecimal digit is the character at its place in the row of digits of its case, and
/// a number with one digit more is written with that digit behind the others.
pub proof fn law_hex_is_digit_by_digit(n: nat, d: nat, width: nat)
    requires
        d < 16,
    ensures
        hex_digits(n, width, true).len() == width,
        hex_digits(n, width, false).len() == width,
        hex_digits(16 * n + d, width + 1, true) == hex_digits(n, width, true).push(
            "0123456789ABCDEF"@[d as int],
        ),
        hex_digits(16 * n + d, width + 1, false) == hex_digits(n, width, false).push(
            "0123456789abcdef"@[d as int],
        ),
    decreases width,
{
    reveal_strlit("0123456789ABCDEF");
    reveal_strlit("0123456789abcdef");
    assert((16 * n + d) / 16 == n);
    assert((16 * n + d) % 16 == d);
    assert(hex_char(d, true) == "0123456789ABCDEF"@[d as int]);
    assert(hex_char(d, false) == "0123456789abcdef"@[d as int]);
    if width > 0 {
        assert(n == 16 * (n / 16) + n % 16);
        law_hex_is_digit_by_digit(n / 16, n % 16, (width - 1) as nat);
    }
}

/// A character is a hexadecimal digit exactly when it stands in one of the two rows, and its
/// value is its place there.
pub proof fn law_hex_value_is_the_place(c: char, d: nat)
    ensures
        hex_value(c) == Some(d) <==> d < 16 && (c == "0123456789ABCDEF"@[d as int] || c
            == "0123456789abcdef"@[d as int]),
{
    reveal_strlit("0123456789ABCDEF");
    reveal_strlit("0123456789abcdef");
}

/// The two hexadecimal digits of each byte, one after the other.
pub open spec fn hex_of_bytes(data: Seq<u8>, upper: bool) -> Seq<char>
    decreases data.len(),
{
    if data.len() == 0 {
        Seq::empty()
    } else {
        hex_of_bytes(data.drop_last(), upper) + hex_digits(data.last() as nat, 2, upper)
    }
}

/// Byte `i` stands at `2 * i` with its high half and behind it with its low half, and
/// nothing else is there.
pub proof fn law_hex_of_bytes_is_byte_by_byte(data: Seq<u8>)
    ensures
        hex_of_bytes(data, true).len() == 2 * data.len(),
        hex_of_bytes(data, false).len() == 2 * data.len(),
        forall|i: int|
            #![trigger data[i]]
            0 <= i < data.len() ==> {
                &&& hex_of_bytes(data, true)[2 * i] == "0123456789ABCDEF"@[data[i] as int / 16]
                &&& hex_of_bytes(data, true)[2 * i + 1] == "0123456789ABCDEF"@[data[i] as int % 16]
                &&& hex_of_bytes(data, false)[2 * i] == "0123456789abcdef"@[data[i] as int / 16]
                &&& hex_of_bytes(data, false)[2 * i + 1] == "0123456789abcdef"@[data[i] as int % 16]
            },
    decreases data.len(),
{
    if data.len() > 0 {
        let front = data.drop_last();
        let last = data.last() as nat;
        law_hex_of_bytes_is_byte_by_byte(front);
        law_hex_is_digit_by_digit(0, last / 16, 0);
        law_hex_is_digit_by_digit(last / 16, last % 16, 1);
        assert(16 * 0 + last / 16 == last / 16);
        assert(16 * (last / 16) + last % 16 == last);
        assert forall|i: int| #![trigger data[i]] 0 <= i < data.len() implies {
            &&& hex_of_bytes(data, true)[2 * i] == "0123456789ABCDEF"@[data[i] as int / 16]
            &&& hex_of_bytes(data, true)[2 * i + 1] == "0123456789ABCDEF"@[data[i] as int % 16]
            &&& hex_of_bytes(data, false)[2 * i] == "0123456789abcdef"@[data[i] as int / 16]
            &&& hex_of_bytes(data, false)[2 * i + 1] == "0123456789abcdef"@[data[i] as int % 16]
        } by {
            if i < front.len() {
                assert(data[i] == front[i]);
            }
        }
    }
}

/// Appends the two hexadecimal digits of each byte of `data`.
pub fn push_hex_of_bytes(out: &mut String, data: &[u8], upper: bool)
    ensures
        final(out)@ == old(out)@ + hex_of_bytes(data@, upper),
{
    let ghost before = out@;
    proof {
        assert(data@.take(0) =~= Seq::<u8>::empty());
        assert(before + hex_of_bytes(data@.take(0), upper) =~= before);
    }
    for i in 0..data.len()
        invariant
            out@ == before + hex_of_bytes(data@.take(i as int), upper),
    {
        push_hex(out, data[i] as u64, 2, upper);
        proof {
            assert(data@.take(i + 1).drop_last() =~= data@.take(i as int));
            assert(out@ =~= before + hex_of_bytes(data@.take(i + 1), upper));
        }
    }
    assert(data@.take(data.len() as int) =~= data@);
}

} // verus!

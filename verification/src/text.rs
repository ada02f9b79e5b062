//! Text as sequences of characters: classes, trimming, searching and words.

use vstd::prelude::*;
use vstd::string::*;

verus! {

/// `String::push` appends one character to the end of the text and changes nothing else.
pub assume_specification[ String::push ](text: &mut String, c: char)
    ensures
        final(text)@ == old(text)@.push(c),
;

/// The characters of `s`, in order.
pub fn chars_of(s: &str) -> (out: Vec<char>)
    ensures
        out@ == s@,
{
    let mut out: Vec<char> = Vec::new();
    for c in it: s.chars()
        invariant
            it.seq() == s@,
            out@ == s@.take(it.index() as int),
    {
        out.push(c);
    }
    out
}

/// True when both texts have the same characters.
pub fn same_text(a: &str, b: &str) -> (same: bool)
    ensures
        same == (a@ == b@),
{
    let x = chars_of(a);
    let y = chars_of(b);
    if x.len() != y.len() {
        return false;
    }
    for i in 0..x.len()
        invariant
            x.len() == y.len(),
            x@ == a@,
            y@ == b@,
            forall|j: int| 0 <= j < i ==> x@[j] == y@[j],
    {
        if x[i] != y[i] {
            return false;
        }
    }
    assert(a@ =~= b@);
    true
}

// ---------------------------------------------------------------------------
// Classes of characters
// ---------------------------------------------------------------------------

/// The characters with the Unicode property `White_Space`.
pub open spec fn is_white_space(c: char) -> bool {
    ||| '\t' <= c <= '\r'
    ||| c == ' '
    ||| c == '\u{85}'
    ||| c == '\u{a0}'
    ||| c == '\u{1680}'
    ||| '\u{2000}' <= c <= '\u{200a}'
    ||| c == '\u{2028}'
    ||| c == '\u{2029}'
    ||| c == '\u{202f}'
    ||| c == '\u{205f}'
    ||| c == '\u{3000}'
}

/// The classes of characters that are trimmed off the ends of a text.
#[derive(Clone, Copy)]
pub enum CharClass {
    /// Unicode white space.
    WhiteSpace,
    /// The two quotation marks that a shell puts around a path.
    Quote,
    /// Carriage return and line feed.
    LineEnd,
}

impl CharClass {
    /// True when `c` belongs to the class.
    pub open spec fn has(self, c: char) -> bool {
        match self {
            CharClass::WhiteSpace => is_white_space(c),
            CharClass::Quote => c == '"' || c == '\'',
            CharClass::LineEnd => c == '\r' || c == '\n',
        }
    }

    /// Tests whether `c` belongs to the class.
    pub fn holds(self, c: char) -> (r: bool)
        ensures
            r == self.has(c),
    {
        match self {
            CharClass::WhiteSpace => {
                ('\t' <= c && c <= '\r') || c == ' ' || c == '\u{85}' || c == '\u{a0}' || c
                    == '\u{1680}' || ('\u{2000}' <= c && c <= '\u{200a}') || c == '\u{2028}' || c
                    == '\u{2029}' || c == '\u{202f}' || c == '\u{205f}' || c == '\u{3000}'
            },
            CharClass::Quote => c == '"' || c == '\'',
            CharClass::LineEnd => c == '\r' || c == '\n',
        }
    }
}

/// How many characters at the start of `s` lie inside the class (`inside`) or
/// outside it (`!inside`) before the first that does not.
pub open spec fn leading(s: Seq<char>, class: CharClass, inside: bool) -> nat
    decreases s.len(),
{
    if s.len() == 0 || class.has(s[0]) != inside {
        0
    } else {
        1 + leading(s.drop_first(), class, inside)
    }
}

/// How many characters at the end of `s` belong to the class.
pub open spec fn trailing(s: Seq<char>, class: CharClass) -> nat
    decreases s.len(),
{
    if s.len() == 0 || !class.has(s.last()) {
        0
    } else {
        1 + trailing(s.drop_last(), class)
    }
}

/// `s` without the characters of the class at its start.
pub open spec fn trimmed_start(s: Seq<char>, class: CharClass) -> Seq<char> {
    s.skip(leading(s, class, true) as int)
}

/// `s` without the characters of the class at its end.
pub open spec fn trimmed_end(s: Seq<char>, class: CharClass) -> Seq<char> {
    s.take(s.len() - trailing(s, class))
}

/// `s` without the characters of the class at either end.
pub open spec fn trimmed(s: Seq<char>, class: CharClass) -> Seq<char> {
    trimmed_end(trimmed_start(s, class), class)
}

/// The leading run is the longest prefix on one side of the class.
pub proof fn lemma_leading(s: Seq<char>, class: CharClass, inside: bool)
    ensures
        leading(s, class, inside) <= s.len(),
        forall|i: int| 0 <= i < leading(s, class, inside) ==> class.has(#[trigger] s[i]) == inside,
        leading(s, class, inside) < s.len() ==> class.has(s[leading(s, class, inside) as int])
            != inside,
    decreases s.len(),
{
    if s.len() > 0 && class.has(s[0]) == inside {
        let rest = s.drop_first();
        lemma_leading(rest, class, inside);
        assert forall|i: int| 0 <= i < leading(s, class, inside) implies class.has(#[trigger] s[i])
            == inside by {
            if i > 0 {
                assert(s[i] == rest[i - 1]);
            }
        }
        if leading(s, class, inside) < s.len() {
            assert(s[leading(s, class, inside) as int] == rest[leading(
                rest,
                class,
                inside,
            ) as int]);
        }
    }
}

/// A prefix that lies on one side of the class and cannot be extended is the leading run.
pub proof fn lemma_leading_is(s: Seq<char>, class: CharClass, inside: bool, n: nat)
    requires
        n <= s.len(),
        forall|i: int| 0 <= i < n ==> class.has(#[trigger] s[i]) == inside,
        n < s.len() ==> class.has(s[n as int]) != inside,
    ensures
        leading(s, class, inside) == n,
{
    lemma_leading(s, class, inside);
    let m = leading(s, class, inside);
    if m < n {
        assert(class.has(s[m as int]) == inside);
    } else if n < m {
        assert(class.has(s[n as int]) == inside);
    }
}

/// The trailing run is the longest suffix inside the class.
pub proof fn lemma_trailing(s: Seq<char>, class: CharClass)
    ensures
        trailing(s, class) <= s.len(),
        forall|i: int| s.len() - trailing(s, class) <= i < s.len() ==> class.has(#[trigger] s[i]),
        trailing(s, class) < s.len() ==> !class.has(s[s.len() - trailing(s, class) - 1]),
    decreases s.len(),
{
    if s.len() > 0 && class.has(s.last()) {
        lemma_trailing(s.drop_last(), class);
        let rest = s.drop_last();
        assert forall|i: int| s.len() - trailing(s, class) <= i < s.len() implies class.has(
            #[trigger] s[i],
        ) by {
            if i < s.len() - 1 {
                assert(s[i] == rest[i]);
            }
        }
    }
}

/// A suffix inside the class that cannot be extended is the trailing run.
pub proof fn lemma_trailing_is(s: Seq<char>, class: CharClass, n: nat)
    requires
        n <= s.len(),
        forall|i: int| s.len() - n <= i < s.len() ==> class.has(#[trigger] s[i]),
        n < s.len() ==> !class.has(s[s.len() - n - 1]),
    ensures
        trailing(s, class) == n,
{
    lemma_trailing(s, class);
    let m = trailing(s, class);
    if m < n {
        assert(class.has(s[s.len() - m - 1]));
    } else if n < m {
        assert(class.has(s[s.len() - n - 1]));
    }
}

/// Trimming cuts a text down to a middle part: what is cut off on either side
/// belongs to the class, and what is left neither starts nor ends with it.
pub proof fn law_trimmed_is_the_middle(s: Seq<char>, class: CharClass)
    ensures
        exists|a: int, b: int|
            #![trigger s.subrange(a, b)]
            {
                &&& 0 <= a <= b <= s.len()
                &&& trimmed(s, class) == s.subrange(a, b)
                &&& forall|i: int| 0 <= i < a ==> class.has(#[trigger] s[i])
                &&& forall|i: int| b <= i < s.len() ==> class.has(#[trigger] s[i])
            },
        trimmed(s, class).len() > 0 ==> !class.has(trimmed(s, class)[0]) && !class.has(
            trimmed(s, class).last(),
        ),
{
    lemma_leading(s, class, true);
    let a = leading(s, class, true) as int;
    let t = trimmed_start(s, class);
    lemma_trailing(t, class);
    let b = a + t.len() - trailing(t, class);
    assert(trimmed(s, class) =~= s.subrange(a, b));
    assert forall|i: int| b <= i < s.len() implies class.has(#[trigger] s[i]) by {
        assert(s[i] == t[i - a]);
    }
}

/// Trimming a trimmed text changes nothing.
pub proof fn law_trim_is_idempotent(s: Seq<char>, class: CharClass)
    ensures
        trimmed(trimmed(s, class), class) == trimmed(s, class),
{
    law_trimmed_is_the_middle(s, class);
    let t = trimmed(s, class);
    lemma_leading_is(t, class, true, 0);
    assert(trimmed_start(t, class) =~= t);
    lemma_trailing_is(t, class, 0);
    assert(trimmed(t, class) =~= t);
}

/// White space around a text that neither starts nor ends with it is cut off, and the text
/// stays whole.
pub proof fn law_trim_strips_outer_space(before: Seq<char>, text: Seq<char>, after: Seq<char>)
    requires
        all_space(before),
        all_space(after),
        text.len() > 0,
        !is_white_space(text[0]),
        !is_white_space(text.last()),
    ensures
        trimmed(before + text + after, CharClass::WhiteSpace) == text,
{
    let ws = CharClass::WhiteSpace;
    let s = before + text + after;
    assert(s[before.len() as int] == text[0]);
    assert forall|i: int| 0 <= i < before.len() implies ws.has(#[trigger] s[i]) by {
        assert(s[i] == before[i]);
    }
    lemma_leading_is(s, ws, true, before.len());
    let t = trimmed_start(s, ws);
    assert(t =~= text + after);
    assert forall|i: int| t.len() - after.len() <= i < t.len() implies ws.has(#[trigger] t[i]) by {
        assert(t[i] == after[i - text.len()]);
    }
    assert(t[t.len() - after.len() - 1] == text.last());
    lemma_trailing_is(t, ws, after.len());
    assert(trimmed(s, ws) =~= text);
}

/// A word with white space around it is what is left when the text is trimmed.
pub proof fn law_trim_strips_space(before: Seq<char>, word: Seq<char>, after: Seq<char>)
    requires
        all_space(before),
        all_space(after),
        word.len() > 0,
        free_of_space(word),
    ensures
        trimmed(before + word + after, CharClass::WhiteSpace) == word,
{
    assert(!is_white_space(word[word.len() - 1]));
    law_trim_strips_outer_space(before, word, after);
}

/// True when `s` is made of carriage returns and line feeds only.
pub open spec fn only_line_ends(s: Seq<char>) -> bool {
    forall|i: int| 0 <= i < s.len() ==> (#[trigger] s[i] == '\r' || s[i] == '\n')
}

/// A line without its line end is all that stands before the carriage returns and line
/// feeds at its end; other characters at its end, white space too, stay.
pub proof fn law_line_end_is_cut_off(text: Seq<char>, end: Seq<char>)
    requires
        only_line_ends(end),
        text.len() > 0 ==> text.last() != '\r' && text.last() != '\n',
    ensures
        trimmed_end(text + end, CharClass::LineEnd) == text,
{
    let s = text + end;
    assert forall|i: int| s.len() - end.len() <= i < s.len() implies CharClass::LineEnd.has(
        #[trigger] s[i],
    ) by {
        assert(s[i] == end[i - text.len()]);
    }
    if text.len() > 0 {
        assert(s[text.len() - 1] == text.last());
    }
    lemma_trailing_is(s, CharClass::LineEnd, end.len());
    assert(trimmed_end(s, CharClass::LineEnd) =~= text);
}

/// Every line is its text and a line end, one behind the other.
pub proof fn law_line_is_text_and_line_end(line: Seq<char>)
    ensures
        ({
            let text = trimmed_end(line, CharClass::LineEnd);
            &&& text.len() <= line.len()
            &&& line == text + line.skip(text.len() as int)
            &&& only_line_ends(line.skip(text.len() as int))
            &&& text.len() > 0 ==> text.last() != '\r' && text.last() != '\n'
        }),
{
    lemma_trailing(line, CharClass::LineEnd);
    let text = trimmed_end(line, CharClass::LineEnd);
    let end = line.skip(text.len() as int);
    assert(line =~= text + end);
    assert forall|i: int| 0 <= i < end.len() implies (#[trigger] end[i] == '\r' || end[i]
        == '\n') by {
        assert(CharClass::LineEnd.has(line[i + text.len()]));
    }
}

/// Quotes around a text, of either sort and however many, are cut off, and the text
/// between them stays whole.
pub proof fn law_trim_strips_quotes(before: Seq<char>, text: Seq<char>, after: Seq<char>)
    requires
        forall|i: int| 0 <= i < before.len() ==> (#[trigger] before[i] == '"' || before[i] == '\''),
        forall|i: int| 0 <= i < after.len() ==> (#[trigger] after[i] == '"' || after[i] == '\''),
        text.len() > 0,
        text[0] != '"' && text[0] != '\'',
        text.last() != '"' && text.last() != '\'',
    ensures
        trimmed(before + text + after, CharClass::Quote) == text,
{
    let q = CharClass::Quote;
    let s = before + text + after;
    assert(s[before.len() as int] == text[0]);
    assert forall|i: int| 0 <= i < before.len() implies q.has(#[trigger] s[i]) by {
        assert(s[i] == before[i]);
    }
    lemma_leading_is(s, q, true, before.len());
    let t = trimmed_start(s, q);
    assert(t =~= text + after);
    assert forall|i: int| t.len() - after.len() <= i < t.len() implies q.has(#[trigger] t[i]) by {
        assert(t[i] == after[i - text.len()]);
    }
    assert(t[t.len() - after.len() - 1] == text.last());
    lemma_trailing_is(t, q, after.len());
    assert(trimmed(s, q) =~= text);
}

/// The position after the leading run of `chars` from `from` on.
fn run_end(chars: &Vec<char>, from: usize, class: CharClass, inside: bool) -> (end: usize)
    requires
        from <= chars.len(),
    ensures
        from <= end <= chars.len(),
        end == from + leading(chars@.skip(from as int), class, inside),
{
    let mut end = from;
    while end < chars.len() && class.holds(chars[end]) == inside
        invariant
            from <= end <= chars.len(),
            forall|i: int| from <= i < end ==> class.has(#[trigger] chars@[i]) == inside,
        decreases chars.len() - end,
    {
        end = end + 1;
    }
    proof {
        lemma_leading_is(chars@.skip(from as int), class, inside, (end - from) as nat);
    }
    end
}

/// Cuts the characters of the class off the end of `s`.
pub fn trim_end<'a>(s: &'a str, class: CharClass) -> (out: &'a str)
    ensures
        out@ == trimmed_end(s@, class),
{
    let chars = chars_of(s);
    let mut end: usize = chars.len();
    while end > 0 && class.holds(chars[end - 1])
        invariant
            end <= chars.len(),
            forall|i: int| end <= i < chars.len() ==> class.has(#[trigger] chars@[i]),
        decreases end,
    {
        end = end - 1;
    }
    proof {
        lemma_trailing_is(chars@, class, (chars.len() - end) as nat);
        assert(trimmed_end(s@, class) =~= s@.subrange(0, end as int));
    }
    s.substring_char(0, end)
}

/// Cuts the characters of the class off both ends of `s`.
pub fn trim<'a>(s: &'a str, class: CharClass) -> (out: &'a str)
    ensures
        out@ == trimmed(s@, class),
{
    let chars = chars_of(s);
    let start = run_end(&chars, 0, class, true);
    proof {
        assert(chars@.skip(0) =~= s@);
        assert(trimmed_start(s@, class) =~= s@.subrange(start as int, chars.len() as int));
    }
    trim_end(s.substring_char(start, chars.len()), class)
}

// ---------------------------------------------------------------------------
// Words
// ---------------------------------------------------------------------------

/// The words of `s`: its longest parts without white space, in order.
pub open spec fn words(s: Seq<char>) -> Seq<Seq<char>>
    decreases s.len(),
{
    let t = trimmed_start(s, CharClass::WhiteSpace);
    let n = leading(t, CharClass::WhiteSpace, false);
    if t.len() == 0 {
        Seq::empty()
    } else {
        proof {
            lemma_leading(s, CharClass::WhiteSpace, true);
            lemma_leading(t, CharClass::WhiteSpace, false);
        }
        seq![t.take(n as int)] + words(t.skip(n as int))
    }
}

/// Every word of a text is non-empty and free of white space.
pub proof fn law_words_hold_no_white_space(s: Seq<char>)
    ensures
        forall|i: int| 0 <= i < words(s).len() ==> (#[trigger] words(s)[i]).len() > 0,
        forall|i: int, j: int|
            0 <= i < words(s).len() && 0 <= j < words(s)[i].len() ==> !is_white_space(
                #[trigger] words(s)[i][j],
            ),
    decreases s.len(),
{
    let ws = CharClass::WhiteSpace;
    let t = trimmed_start(s, ws);
    let n = leading(t, ws, false);
    lemma_leading(s, ws, true);
    lemma_leading(t, ws, false);
    if t.len() > 0 {
        let rest = words(t.skip(n as int));
        law_words_hold_no_white_space(t.skip(n as int));
        assert forall|i: int, j: int|
            0 <= i < words(s).len() && 0 <= j < words(s)[i].len() implies !is_white_space(
            #[trigger] words(s)[i][j],
        ) by {
            if i == 0 {
                assert(words(s)[0][j] == t[j]);
                assert(!ws.has(t[j]));
            } else {
                assert(words(s)[i] == rest[i - 1]);
                assert(!is_white_space(rest[i - 1][j]));
            }
        }
        assert forall|i: int| 0 <= i < words(s).len() implies (#[trigger] words(s)[i]).len()
            > 0 by {
            if i > 0 {
                assert(words(s)[i] == rest[i - 1]);
            }
        }
    }
}

/// True when no character of `s` is white space.
pub open spec fn free_of_space(s: Seq<char>) -> bool {
    forall|i: int| 0 <= i < s.len() ==> !is_white_space(#[trigger] s[i])
}

/// True when every character of `s` is white space.
pub open spec fn all_space(s: Seq<char>) -> bool {
    forall|i: int| 0 <= i < s.len() ==> is_white_space(#[trigger] s[i])
}

/// A word that white space sets off from the rest of a text is its first word,
/// and the other words are those of the rest.
pub proof fn law_words_are_set_off_by_space(word: Seq<char>, gap: Seq<char>, rest: Seq<char>)
    requires
        word.len() > 0,
        free_of_space(word),
        all_space(gap),
        gap.len() > 0 || rest.len() == 0,
    ensures
        words(word + gap + rest) == seq![word] + words(rest),
{
    let ws = CharClass::WhiteSpace;
    let s = word + gap + rest;
    assert(s[0] == word[0]);
    assert(!ws.has(s[0]));
    lemma_leading_is(s, ws, true, 0);
    assert(trimmed_start(s, ws) =~= s);
    let n = word.len();
    assert forall|i: int| 0 <= i < n implies ws.has(#[trigger] s[i]) == false by {
        assert(s[i] == word[i]);
    }
    if n < s.len() {
        assert(s[n as int] == gap[0]);
    }
    lemma_leading_is(s, ws, false, n);
    assert(s.take(n as int) =~= word);
    assert(s.skip(n as int) =~= gap + rest);
    lemma_words_skip_space(gap, rest);
}

/// An empty text has no words.
pub proof fn lemma_no_words()
    ensures
        words(Seq::empty()) == Seq::<Seq<char>>::empty(),
{
}

/// White space in front does not change the words, and a text of nothing else has none.
pub proof fn law_words_skip_space(gap: Seq<char>, rest: Seq<char>)
    requires
        all_space(gap),
    ensures
        words(gap + rest) == words(rest),
        words(gap) == Seq::<Seq<char>>::empty(),
{
    lemma_words_skip_space(gap, rest);
    lemma_words_skip_space(gap, Seq::empty());
    assert(gap + Seq::<char>::empty() =~= gap);
    lemma_no_words();
}

/// White space in front does not change the words.
proof fn lemma_words_skip_space(gap: Seq<char>, rest: Seq<char>)
    requires
        all_space(gap),
    ensures
        words(gap + rest) == words(rest),
{
    let ws = CharClass::WhiteSpace;
    let s = gap + rest;
    lemma_leading(rest, ws, true);
    let m = leading(rest, ws, true);
    let n = gap.len() + m;
    assert forall|i: int| 0 <= i < n implies ws.has(#[trigger] s[i]) by {
        if i < gap.len() {
            assert(s[i] == gap[i]);
        } else {
            assert(s[i] == rest[i - gap.len()]);
        }
    }
    if n < s.len() {
        assert(s[n as int] == rest[m as int]);
    }
    lemma_leading_is(s, ws, true, n);
    assert(trimmed_start(s, ws) =~= trimmed_start(rest, ws));
}

/// The characters of each text in `parts`.
pub open spec fn texts(parts: Seq<&str>) -> Seq<Seq<char>> {
    Seq::new(parts.len(), |i: int| parts[i]@)
}

/// Splits `s` into its words.
pub fn split_words<'a>(s: &'a str) -> (out: Vec<&'a str>)
    ensures
        texts(out@) == words(s@),
{
    let class = CharClass::WhiteSpace;
    let chars = chars_of(s);
    let mut out: Vec<&'a str> = Vec::new();
    let mut pos: usize = 0;
    proof {
        assert(s@.skip(0) =~= s@);
        assert(texts(out@) + words(s@) =~= words(s@));
    }
    loop
        invariant
            class == CharClass::WhiteSpace,
            chars@ == s@,
            pos <= chars.len(),
            words(s@) == texts(out@) + words(s@.skip(pos as int)),
        ensures
            words(s@) == texts(out@),
        decreases chars.len() - pos,
    {
        let start = run_end(&chars, pos, class, true);
        let ghost rest = s@.skip(pos as int);
        let ghost t = trimmed_start(rest, class);
        proof {
            assert(t =~= s@.skip(start as int));
        }
        if start == chars.len() {
            proof {
                assert(words(rest) =~= Seq::<Seq<char>>::empty());
                assert(texts(out@) + words(rest) =~= texts(out@));
            }
            break;
        }
        let end = run_end(&chars, start, class, false);
        let ghost before = texts(out@);
        proof {
            lemma_leading(rest, class, true);
            lemma_leading(t, class, false);
            let n = leading(t, class, false);
            assert(n == end - start);
            assert(!class.has(t[0]));
            lemma_first_outside(t, class);
            assert(t.take(n as int) =~= s@.subrange(start as int, end as int));
            assert(t.skip(n as int) =~= s@.skip(end as int));
        }
        let word = s.substring_char(start, end);
        out.push(word);
        proof {
            assert(texts(out@) =~= before.push(word@));
            assert(before + (seq![word@] + words(s@.skip(end as int))) =~= texts(out@) + words(
                s@.skip(end as int),
            ));
        }
        pos = end;
    }
    out
}

/// A text that starts outside the class has a leading run outside it.
proof fn lemma_first_outside(t: Seq<char>, class: CharClass)
    requires
        t.len() > 0,
        !class.has(t[0]),
    ensures
        leading(t, class, false) > 0,
{
}

// ---------------------------------------------------------------------------
// Searching
// ---------------------------------------------------------------------------

/// True when `part` stands in `s` at position `i`.
pub open spec fn occurs_at(s: Seq<char>, part: Seq<char>, i: int) -> bool {
    &&& 0 <= i
    &&& i + part.len() <= s.len()
    &&& s.subrange(i, i + part.len()) == part
}

/// The first position from `i` on at which `part` stands in `s`.
pub open spec fn find_from(s: Seq<char>, part: Seq<char>, i: int) -> Option<int>
    decreases s.len() + 1 - i,
{
    if i < 0 || i + part.len() > s.len() {
        None
    } else if occurs_at(s, part, i) {
        Some(i)
    } else {
        find_from(s, part, i + 1)
    }
}

/// The first position at which `part` stands in `s`.
pub open spec fn find(s: Seq<char>, part: Seq<char>) -> Option<int> {
    find_from(s, part, 0)
}

/// `find_from` gives the least position from `i` on, and `None` only when there is none.
pub proof fn lemma_find_from(s: Seq<char>, part: Seq<char>, i: int)
    requires
        0 <= i,
    ensures
        match find_from(s, part, i) {
            Some(k) => {
                &&& i <= k
                &&& occurs_at(s, part, k)
                &&& forall|j: int| i <= j < k ==> !occurs_at(s, part, j)
            },
            None => forall|j: int| i <= j ==> !occurs_at(s, part, j),
        },
    decreases s.len() + 1 - i,
{
    if i + part.len() <= s.len() && !occurs_at(s, part, i) {
        lemma_find_from(s, part, i + 1);
    }
}

/// A position at which `part` stands and before which it does not is the one found.
pub proof fn law_find_is_the_first(s: Seq<char>, part: Seq<char>, k: int)
    ensures
        (occurs_at(s, part, k) && forall|j: int| 0 <= j < k ==> !occurs_at(s, part, j)) <==> find(
            s,
            part,
        ) == Some(k),
{
    lemma_find_from(s, part, 0);
}

/// A part stands in a text at a position exactly when the text is something of that length,
/// then the whole part, then anything.
pub proof fn law_part_stands_whole(s: Seq<char>, part: Seq<char>, i: int)
    ensures
        occurs_at(s, part, i) <==> exists|before: Seq<char>, after: Seq<char>|
            before.len() == i && s == #[trigger] (before + part + after),
{
    if occurs_at(s, part, i) {
        let before = s.take(i);
        let after = s.skip(i + part.len());
        assert(s =~= before + part + after) by {
            assert forall|j: int| i <= j < i + part.len() implies s[j] == part[j - i] by {
                assert(s.subrange(i, i + part.len())[j - i] == part[j - i]);
            }
        }
    }
    if exists|before: Seq<char>, after: Seq<char>|
        before.len() == i && s == #[trigger] (before + part + after) {
        let (before, after) = choose|before: Seq<char>, after: Seq<char>|
            before.len() == i && s == #[trigger] (before + part + after);
        assert(s.subrange(i, i + part.len()) =~= part);
    }
}

/// True when `part` stands in `chars` at position `i`.
fn stands_at(chars: &Vec<char>, part: &Vec<char>, i: usize) -> (r: bool)
    requires
        i + part.len() <= chars.len(),
    ensures
        r == occurs_at(chars@, part@, i as int),
{
    for j in 0..part.len()
        invariant
            i + part.len() <= chars.len(),
            forall|m: int| 0 <= m < j ==> chars@[i + m] == part@[m],
    {
        if chars[i + j] != part[j] {
            proof {
                assert(chars@.subrange(i as int, i + part.len())[j as int] != part@[j as int]);
            }
            return false;
        }
    }
    assert(chars@.subrange(i as int, i + part.len()) =~= part@);
    true
}

/// The first position at which `part` stands in `s`, counted in characters.
pub fn find_text(s: &str, part: &str) -> (at: Option<usize>)
    ensures
        match at {
            Some(k) => find(s@, part@) == Some(k as int) && k + part@.len() <= s@.len(),
            None => find(s@, part@) is None,
        },
{
    let chars = chars_of(s);
    let wanted = chars_of(part);
    if wanted.len() > chars.len() {
        return None;
    }
    let last = chars.len() - wanted.len();
    let mut i: usize = 0;
    while i <= last
        invariant
            chars@ == s@,
            wanted@ == part@,
            i <= last + 1,
            last == chars.len() - wanted.len(),
            wanted.len() <= chars.len(),
            find(s@, part@) == find_from(s@, part@, i as int),
        decreases last + 1 - i,
    {
        if stands_at(&chars, &wanted, i) {
            return Some(i);
        }
        if i == last {
            return None;
        }
        i = i + 1;
    }
    None
}

/// True when `s` starts with `part`.
pub open spec fn starts_with(s: Seq<char>, part: Seq<char>) -> bool {
    occurs_at(s, part, 0)
}

/// True when `s` ends with `part`.
pub open spec fn ends_with(s: Seq<char>, part: Seq<char>) -> bool {
    occurs_at(s, part, s.len() - part.len())
}

/// A text starts with a part exactly when it is the whole part and then anything, and ends
/// with it exactly when it is anything and then the whole part.
pub proof fn law_text_starts_and_ends(s: Seq<char>, part: Seq<char>)
    ensures
        starts_with(s, part) <==> exists|rest: Seq<char>| s == #[trigger] (part + rest),
        ends_with(s, part) <==> exists|front: Seq<char>| s == #[trigger] (front + part),
{
    if starts_with(s, part) {
        law_part_stands_whole(s, part, 0);
        let (before, after) = choose|before: Seq<char>, after: Seq<char>|
            before.len() == 0 && s == #[trigger] (before + part + after);
        assert(s =~= part + after);
    }
    if exists|rest: Seq<char>| s == #[trigger] (part + rest) {
        let rest = choose|rest: Seq<char>| s == #[trigger] (part + rest);
        assert(s.subrange(0, part.len() as int) =~= part);
    }
    if ends_with(s, part) {
        let k = s.len() - part.len();
        law_part_stands_whole(s, part, k);
        let (before, after) = choose|before: Seq<char>, after: Seq<char>|
            before.len() == k && s == #[trigger] (before + part + after);
        assert(s =~= before + part);
    }
    if exists|front: Seq<char>| s == #[trigger] (front + part) {
        let front = choose|front: Seq<char>| s == #[trigger] (front + part);
        assert(s.subrange(s.len() - part.len(), s.len() as int) =~= part);
    }
}

/// Tests whether `s` starts with `part`.
pub fn has_prefix(s: &str, part: &str) -> (r: bool)
    ensures
        r == starts_with(s@, part@),
{
    let chars = chars_of(s);
    let wanted = chars_of(part);
    wanted.len() <= chars.len() && stands_at(&chars, &wanted, 0)
}

/// Tests whether `s` ends with `part`.
pub fn has_suffix(s: &str, part: &str) -> (r: bool)
    ensures
        r == ends_with(s@, part@),
{
    let chars = chars_of(s);
    let wanted = chars_of(part);
    wanted.len() <= chars.len() && stands_at(&chars, &wanted, chars.len() - wanted.len())
}

/// Tests whether the character `c` stands in `s`.
pub fn has_char(s: &str, c: char) -> (r: bool)
    ensures
        r == s@.contains(c),
{
    let chars = chars_of(s);
    for i in 0..chars.len()
        invariant
            chars@ == s@,
            forall|j: int| 0 <= j < i ==> chars@[j] != c,
    {
        if chars[i] == c {
            assert(s@[i as int] == c);
            return true;
        }
    }
    false
}

// ---------------------------------------------------------------------------
// Rewriting
// ---------------------------------------------------------------------------

/// `s` without the character `c`.
pub open spec fn without(s: Seq<char>, c: char) -> Seq<char>
    decreases s.len(),
{
    if s.len() == 0 {
        Seq::empty()
    } else if s.last() == c {
        without(s.drop_last(), c)
    } else {
        without(s.drop_last(), c).push(s.last())
    }
}

/// A character that was taken out does not stand in what is left, and every
/// other character of the text does.
pub proof fn law_without_takes_out_one_character(s: Seq<char>, c: char)
    ensures
        !without(s, c).contains(c),
        forall|d: char| d != c ==> (#[trigger] without(s, c).contains(d) <==> s.contains(d)),
    decreases s.len(),
{
    if s.len() > 0 {
        let rest = s.drop_last();
        law_without_takes_out_one_character(rest, c);
        let kept = without(rest, c);
        let last = s.last();
        assert(s =~= rest.push(last));
        assert forall|d: char| d != c implies (#[trigger] without(s, c).contains(d) <==> s.contains(
            d,
        )) by {
            lemma_push_contains(rest, last, d);
            lemma_push_contains(kept, last, d);
        }
        lemma_push_contains(kept, last, c);
    }
}

/// A text without the character stays as it is, the character alone leaves nothing, and
/// the two parts of a text are treated one by one: what is left keeps its order.
pub proof fn law_without_keeps_the_rest(a: Seq<char>, b: Seq<char>, c: char)
    ensures
        !a.contains(c) ==> without(a, c) == a,
        without(seq![c], c) == Seq::<char>::empty(),
        without(a + b, c) == without(a, c) + without(b, c),
    decreases a.len() + b.len(),
{
    assert(seq![c].drop_last() =~= Seq::<char>::empty());
    assert(without(Seq::empty(), c) =~= Seq::<char>::empty());
    if b.len() > 0 {
        law_without_keeps_the_rest(a, b.drop_last(), c);
        assert((a + b).drop_last() =~= a + b.drop_last());
        assert(without(a + b, c) =~= without(a, c) + without(b, c));
    } else {
        assert(a + b =~= a);
        assert(without(a, c) + without(b, c) =~= without(a, c));
        if a.len() > 0 && !a.contains(c) {
            assert(a[a.len() - 1] != c);
            let front = a.drop_last();
            if front.contains(c) {
                let i = choose|i: int| 0 <= i < front.len() && front[i] == c;
                assert(a[i] == c);
            }
            law_without_keeps_the_rest(front, b, c);
            assert(without(a, c) =~= a);
        } else if a.len() == 0 {
            assert(without(a, c) =~= a);
        }
    }
}

/// What a text with one more character contains.
proof fn lemma_push_contains(s: Seq<char>, last: char, d: char)
    ensures
        s.push(last).contains(d) <==> s.contains(d) || d == last,
{
    assert(s.push(last)[s.len() as int] == last);
    if s.contains(d) {
        let i = choose|i: int| 0 <= i < s.len() && s[i] == d;
        assert(s.push(last)[i] == d);
    }
}

/// Takes the character `c` out of `s`.
pub fn remove_char(s: &str, c: char) -> (out: String)
    ensures
        out@ == without(s@, c),
{
    let chars = chars_of(s);
    let mut out = String::new();
    for i in 0..chars.len()
        invariant
            chars@ == s@,
            out@ == without(s@.take(i as int), c),
    {
        proof {
            assert(s@.take(i + 1).drop_last() =~= s@.take(i as int));
        }
        if chars[i] != c {
            out.push(chars[i]);
        }
    }
    assert(s@.take(chars.len() as int) =~= s@);
    out
}

/// `c` in lower case when it is an ASCII capital letter, else `c` itself.
pub open spec fn ascii_lower_char(c: char) -> char {
    if 'A' <= c <= 'Z' {
        (c as u8 + 32) as char
    } else {
        c
    }
}

/// `s` with its ASCII capital letters in lower case.
pub open spec fn ascii_lower(s: Seq<char>) -> Seq<char> {
    Seq::new(s.len(), |i: int| ascii_lower_char(s[i]))
}

/// Lower case keeps the length, changes nothing but ASCII capital letters, and gives each of
/// those the small letter at the same place of the alphabet.
pub proof fn law_lower_case_keeps_the_letters(s: Seq<char>)
    ensures
        ascii_lower(s).len() == s.len(),
        forall|i: int|
            0 <= i < s.len() ==> (if 'A' <= s[i] <= 'Z' {
                #[trigger] ascii_lower(s)[i] as int - 'a' as int == s[i] as int - 'A' as int
            } else {
                ascii_lower(s)[i] == s[i]
            }),
{
}

/// Puts the ASCII capital letters of `s` in lower case.
pub fn to_ascii_lower(s: &str) -> (out: String)
    ensures
        out@ == ascii_lower(s@),
{
    let chars = chars_of(s);
    let mut out = String::new();
    for i in 0..chars.len()
        invariant
            chars@ == s@,
            out@ == ascii_lower(s@).take(i as int),
    {
        let c = chars[i];
        let lower = if 'A' <= c && c <= 'Z' {
            (c as u8 + 32) as char
        } else {
            c
        };
        out.push(lower);
    }
    out
}

} // verus!

//! What the user types.

use crate::text::{
    all_space, ascii_lower, is_white_space, law_lower_case_keeps_the_letters,
    law_trim_strips_outer_space, law_trim_strips_quotes, law_trim_strips_space,
    law_trimmed_is_the_middle, same_text, to_ascii_lower, trim, trimmed, CharClass,
};
use vstd::prelude::*;
use vstd::string::*;

verus! {

/// The path in what the user typed: without white space around it, then without quotes.
pub open spec fn typed_path(input: Seq<char>) -> Seq<char> {
    trimmed(trimmed(input, CharClass::WhiteSpace), CharClass::Quote)
}

/// Gives the path that the user typed, or nothing when the path is empty.
pub fn clean_path(input: &str) -> (out: Option<String>)
    ensures
        match out {
            Some(path) => path@ == typed_path(input@) && path@.len() > 0,
            None => typed_path(input@).len() == 0,
        },
{
    let path = trim(trim(input, CharClass::WhiteSpace), CharClass::Quote);
    if path.is_empty() {
        None
    } else {
        Some(path.to_string())
    }
}

/// What is said of a file that is not there.
pub fn missing_file_text(path: &str) -> (text: String)
    ensures
        text@ == "固件文件 '"@ + path@ + "' 未找到。"@,
{
    let mut text = "固件文件 '".to_string();
    text.append(path);
    text.append("' 未找到。");
    text
}

/// What is about to happen, before the user confirms it.
pub fn flash_intent_text(path: &str, port_name: &str) -> (text: String)
    ensures
        text@ == "即将将 '"@ + path@ + "' 烧录到端口 '"@ + port_name@ + "' 上的设备。"@,
{
    let mut text = "即将将 '".to_string();
    text.append(path);
    text.append("' 烧录到端口 '");
    text.append(port_name);
    text.append("' 上的设备。");
    text
}

/// What the user typed, without white space around it and in lower case.
pub open spec fn typed_word(input: Seq<char>) -> Seq<char> {
    ascii_lower(trimmed(input, CharClass::WhiteSpace))
}

/// Tests whether the user confirmed that the firmware is to be written: only with `y`.
pub fn confirms_flash(input: &str) -> (r: bool)
    ensures
        r == (typed_word(input@) == "y"@),
{
    let word = to_ascii_lower(trim(input, CharClass::WhiteSpace));
    same_text(word.as_str(), "y")
}

/// Tests whether the user wants a device to be connected: with `y` or `yes`.
pub fn accepts_device(input: &str) -> (r: bool)
    ensures
        r == (typed_word(input@) == "y"@ || typed_word(input@) == "yes"@),
{
    let word = to_ascii_lower(trim(input, CharClass::WhiteSpace));
    same_text(word.as_str(), "y") || same_text(word.as_str(), "yes")
}

/// A path comes out whole, whatever white space stands around it and whatever quotes
/// stand directly around it.
pub proof fn law_typed_path_is_whole(
    before: Seq<char>,
    open: Seq<char>,
    path: Seq<char>,
    close: Seq<char>,
    after: Seq<char>,
)
    requires
        all_space(before),
        all_space(after),
        forall|i: int| 0 <= i < open.len() ==> (#[trigger] open[i] == '"' || open[i] == '\''),
        forall|i: int| 0 <= i < close.len() ==> (#[trigger] close[i] == '"' || close[i] == '\''),
        path.len() > 0,
        path[0] != '"' && path[0] != '\'' && path.last() != '"' && path.last() != '\'',
        open.len() == 0 ==> !is_white_space(path[0]),
        close.len() == 0 ==> !is_white_space(path.last()),
    ensures
        typed_path(before + (open + path + close) + after) == path,
{
    let quoted = open + path + close;
    assert(quoted[0] == if open.len() > 0 {
        open[0]
    } else {
        path[0]
    });
    assert(quoted.last() == if close.len() > 0 {
        close[close.len() - 1]
    } else {
        path.last()
    });
    law_trim_strips_outer_space(before, quoted, after);
    law_trim_strips_quotes(open, path, close);
}

/// The answers that confirm are the letter, and for a device also the word, in any mixture
/// of cases and with white space around; no other answer does.
pub proof fn law_only_these_answers_confirm(input: Seq<char>)
    ensures
        ({
            let word = trimmed(input, CharClass::WhiteSpace);
            &&& typed_word(input) == "y"@ <==> word.len() == 1 && (word[0] == 'y' || word[0] == 'Y')
            &&& typed_word(input) == "yes"@ <==> {
                &&& word.len() == 3
                &&& word[0] == 'y' || word[0] == 'Y'
                &&& word[1] == 'e' || word[1] == 'E'
                &&& word[2] == 's' || word[2] == 'S'
            }
        }),
{
    reveal_strlit("y");
    reveal_strlit("yes");
    let word = trimmed(input, CharClass::WhiteSpace);
    let lower = typed_word(input);
    law_lower_case_keeps_the_letters(word);
    if lower == "y"@ {
        assert(lower[0] == 'y');
    }
    if word.len() == 1 && (word[0] == 'y' || word[0] == 'Y') {
        assert(lower =~= "y"@);
    }
    if lower == "yes"@ {
        assert(lower[0] == 'y' && lower[1] == 'e' && lower[2] == 's');
    }
    if word.len() == 3 && (word[0] == 'y' || word[0] == 'Y') && (word[1] == 'e' || word[1] == 'E')
        && (word[2] == 's' || word[2] == 'S') {
        assert(lower =~= "yes"@);
    }
}

/// The letter alone confirms, in either case and whatever white space stands around it;
/// an answer of nothing but white space does not.
pub proof fn law_letter_alone_confirms(before: Seq<char>, letter: char, after: Seq<char>)
    requires
        all_space(before),
        all_space(after),
        letter == 'y' || letter == 'Y',
    ensures
        typed_word(before + seq![letter] + after) == "y"@,
        typed_word(before) != "y"@ && typed_word(before) != "yes"@,
{
    reveal_strlit("y");
    reveal_strlit("yes");
    law_trim_strips_space(before, seq![letter], after);
    assert(typed_word(before + seq![letter] + after) =~= "y"@);
    law_trimmed_is_the_middle(before, CharClass::WhiteSpace);
    let left = trimmed(before, CharClass::WhiteSpace);
    if left.len() > 0 {
        assert(before.contains(left[0]));
    }
    assert(typed_word(before).len() == 0);
}

} // verus!

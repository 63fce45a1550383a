//! Cleaning of the text a transcription service returns.

use vstd::prelude::*;

verus! {

/// What replacing every match of the regular expression `pattern` in
/// `haystack` by `replacement` gives, or `None` where `pattern` is not a
/// regular expression the `regex` crate compiles.
pub uninterp spec fn regex_replace_all(
    pattern: Seq<char>,
    haystack: Seq<char>,
    replacement: Seq<char>,
) -> Option<Seq<char>>;

/// Whether the character is white space: one of the characters that have
/// Unicode's `White_Space` property.
pub open spec fn is_white_space(c: char) -> bool {
    let code = c as u32;
    ||| 0x09 <= code <= 0x0d
    ||| code == 0x20
    ||| code == 0x85
    ||| code == 0xa0
    ||| code == 0x1680
    ||| 0x2000 <= code <= 0x200a
    ||| code == 0x2028
    ||| code == 0x2029
    ||| code == 0x202f
    ||| code == 0x205f
    ||| code == 0x3000
}

/// The number of white-space characters the text begins with.
pub open spec fn leading_white_space(text: Seq<char>) -> nat
    decreases text.len(),
{
    if text.len() > 0 && is_white_space(text[0]) {
        1 + leading_white_space(text.drop_first())
    } else {
        0
    }
}

/// The number of white-space characters the text ends with.
pub open spec fn trailing_white_space(text: Seq<char>) -> nat
    decreases text.len(),
{
    if text.len() > 0 && is_white_space(text.last()) {
        1 + trailing_white_space(text.drop_last())
    } else {
        0
    }
}

/// The text without the white space at its beginning and at its end.
pub open spec fn trimmed(text: Seq<char>) -> Seq<char> {
    let rest = text.skip(leading_white_space(text) as int);
    rest.take(rest.len() - trailing_white_space(rest))
}

/// Calls `regex::Regex::new` on `pattern` and, where that compiles,
/// `regex::Regex::replace_all` on `haystack` with `replacement`. Both depend
/// on their arguments alone; the contract gives their combined result its
/// name and claims nothing else of it.
#[verifier::external_body]
fn replace_all(pattern: &str, haystack: &str, replacement: &str) -> (replaced: Option<String>)
    ensures
        match replaced {
            Some(text) => regex_replace_all(pattern@, haystack@, replacement@) == Some(text@),
            None => regex_replace_all(pattern@, haystack@, replacement@) is None,
        },
{
    match regex::Regex::new(pattern) {
        Ok(re) => Some(re.replace_all(haystack, replacement).into_owned()),
        Err(_) => None,
    }
}

/// Calls `str::trim`. The contract states what its documentation says: the
/// result is the text with its leading and trailing white space removed,
/// white space being the characters with Unicode's `White_Space` property.
/// What is claimed without proof is that `str::trim` does so, for the
/// characters that [`is_white_space`] lists.
#[verifier::external_body]
fn trim<'a>(text: &'a str) -> (inner: &'a str)
    ensures
        inner@ == trimmed(text@),
{
    text.trim()
}

/// The text after one replacement pass: the outcome of the pass where the
/// pattern compiled, and the text as it was where it did not.
pub open spec fn pass_result(current: Seq<char>, outcome: Option<Seq<char>>) -> Seq<char> {
    match outcome {
        Some(replaced) => replaced,
        None => current,
    }
}

/// The text with every match of `pattern` removed.
pub open spec fn without(text: Seq<char>, pattern: Seq<char>) -> Seq<char> {
    pass_result(text, regex_replace_all(pattern, text, ""@))
}

/// The text with the service's tags removed: first anything of the form
/// `<|...|>`, then what a list of known tags still matches.
pub open spec fn without_tags(text: Seq<char>) -> Seq<char> {
    let t1 = without(text, r"<\|[^|]+\|>"@);
    let t2 = without(t1, r"<\|zh\|>"@);
    let t3 = without(t2, r"<\|NEUTRAL\|>"@);
    let t4 = without(t3, r"<\|Speech\|>"@);
    let t5 = without(t4, r"<\|en\|>"@);
    let t6 = without(t5, r"<\|HAPPY\|>"@);
    let t7 = without(t6, r"<\|SAD\|>"@);
    let t8 = without(t7, r"<\|ANGRY\|>"@);
    without(t8, r"<\|CALM\|>"@)
}

/// The cleaned transcription: tags removed, the ends trimmed, and every run
/// of white space replaced by one space.
pub open spec fn cleaned_text(text: Seq<char>) -> Seq<char> {
    let inner = trimmed(without_tags(text));
    pass_result(inner, regex_replace_all(r"\s+"@, inner, " "@))
}

/// Settles one replacement pass: takes its outcome where there is one and
/// keeps the text where the pattern did not compile.
pub fn settle_pass(current: String, outcome: Option<String>) -> (text: String)
    ensures
        text@ == pass_result(
            current@,
            match outcome {
                Some(replaced) => Some(replaced@),
                None => None,
            },
        ),
{
    match outcome {
        Some(replaced) => replaced,
        None => current,
    }
}

fn remove_matches(text: String, pattern: &str) -> (stripped: String)
    ensures
        stripped@ == without(text@, pattern@),
{
    let outcome = replace_all(pattern, text.as_str(), "");
    settle_pass(text, outcome)
}

/// Removes the transcription service's tags from its text, trims it and
/// collapses runs of white space.
pub fn clean_transcription_text(text: &str) -> (cleaned: String)
    ensures
        cleaned@ == cleaned_text(text@),
{
    let t0 = String::from_str(text);
    let t1 = remove_matches(t0, r"<\|[^|]+\|>");
    let t2 = remove_matches(t1, r"<\|zh\|>");
    let t3 = remove_matches(t2, r"<\|NEUTRAL\|>");
    let t4 = remove_matches(t3, r"<\|Speech\|>");
    let t5 = remove_matches(t4, r"<\|en\|>");
    let t6 = remove_matches(t5, r"<\|HAPPY\|>");
    let t7 = remove_matches(t6, r"<\|SAD\|>");
    let t8 = remove_matches(t7, r"<\|ANGRY\|>");
    let t9 = remove_matches(t8, r"<\|CALM\|>");
    let inner = String::from_str(trim(t9.as_str()));
    let outcome = replace_all(r"\s+", inner.as_str(), " ");
    settle_pass(inner, outcome)
}

} // verus!

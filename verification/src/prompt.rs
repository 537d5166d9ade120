//! The answer to the one question that a run with conflicts asks.

use vstd::prelude::*;
use crate::text::{from_chars, to_chars, trim, trim_chars};

verus! {

/// `text` in lower case, as `str::to_lowercase` gives it.
pub uninterp spec fn lowercase(text: Seq<char>) -> Seq<char>;

/// `str::to_lowercase` returns the lower-case equivalent of the text, which
/// depends on the text alone; the contract gives it its name.
pub assume_specification[ str::to_lowercase ](text: &str) -> (lowered: String)
    ensures
        lowered@ == lowercase(text@),
;

/// Whether a normalized answer says yes: nothing at all, `y` or `yes`.
pub open spec fn affirmative(answer: Seq<char>) -> bool {
    answer.len() == 0 || answer == seq!['y'] || answer == seq!['y', 'e', 's']
}

/// Whether an answer that was trimmed and put in lower case says yes.
pub fn is_affirmative(answer: &str) -> (yes: bool)
    ensures
        yes == affirmative(answer@),
{
    let chars = to_chars(answer);
    if chars.len() == 0 {
        true
    } else if chars.len() == 1 {
        let yes = chars[0] == 'y';
        assert(yes == (chars@ =~= seq!['y']));
        yes
    } else if chars.len() == 3 {
        let yes = chars[0] == 'y' && chars[1] == 'e' && chars[2] == 's';
        assert(yes == (chars@ =~= seq!['y', 'e', 's']));
        yes
    } else {
        false
    }
}

/// Whether the line that the user typed lets the run go on: the answer is read
/// without the white space around it and without regard to case.
pub fn accepts(line: &str) -> (yes: bool)
    ensures
        yes == affirmative(lowercase(trim(line@))),
{
    let trimmed = from_chars(&trim_chars(&to_chars(line)));
    let lowered = trimmed.as_str().to_lowercase();
    is_affirmative(lowered.as_str())
}

} // verus!

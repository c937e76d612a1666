use regex::Regex;
use vstd::prelude::*;

use crate::error::PolishError;

verus! {

/// The characters an expression may hold: the five operator symbols, the
/// decimal digits and the space.
pub open spec fn is_available_character(c: char) -> bool {
    c == '+' || c == '-' || c == '*' || c == '/' || c == '%' || c == ' ' || ('0' <= c && c <= '9')
}

/// Some character of `text` is outside the allowed set.
pub open spec fn has_unavailable_character(text: Seq<char>) -> bool {
    exists|i: int| 0 <= i < text.len() && !is_available_character(#[trigger] text[i])
}

/// The pattern of one character outside the allowed set: a negated class that
/// lists the allowed characters.
pub const UNAVAILABLE_PATTERN: &'static str = "[^+\\-*/%1234567890 ]";

/// Compiles `pattern` with `regex::Regex::new` and searches `text` with
/// `Regex::is_match`. This is trusted, not proved. The only pattern admitted
/// is the negated class of the allowed characters: it compiles, so nothing
/// panics, and it matches any one character that the class does not list,
/// wherever it stands in the text. The search therefore succeeds if and only
/// if the text holds a character outside the allowed set.
#[verifier::external_body]
fn regex_is_match(pattern: &str, text: &str) -> (found: bool)
    requires
        pattern@ == UNAVAILABLE_PATTERN@,
    ensures
        found == has_unavailable_character(text@),
{
    Regex::new(pattern).unwrap().is_match(text)
}

/// Tells whether an expression was entered at all.
pub fn is_exoression(exoression: &str) -> (entered: bool)
    ensures
        entered == (exoression@.len() > 0),
{
    !exoression.is_empty()
}

/// Tells whether the string holds a character outside the allowed set.
pub fn is_unavailable_character(checked_string: &str) -> (found: bool)
    ensures
        found == has_unavailable_character(checked_string@),
{
    regex_is_match(UNAVAILABLE_PATTERN, checked_string)
}

/// What the validator answers for an expression: emptiness is looked at
/// first, then the characters.
pub open spec fn syntax_checked(exoression: Seq<char>) -> Result<(), PolishError> {
    if exoression.len() == 0 {
        Err(PolishError::NotEnteredExoression)
    } else if has_unavailable_character(exoression) {
        Err(PolishError::UseUnavailableCharacter)
    } else {
        Ok(())
    }
}

/// Validates an expression before any parsing.
pub fn syntax_check(exoression: &str) -> (checked: Result<(), PolishError>)
    ensures
        checked == syntax_checked(exoression@),
{
    if !is_exoression(exoression) {
        Err(PolishError::NotEnteredExoression)
    } else if is_unavailable_character(exoression) {
        Err(PolishError::UseUnavailableCharacter)
    } else {
        Ok(())
    }
}

} // verus!

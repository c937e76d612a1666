use vstd::prelude::*;
use vstd::string::*;

use crate::error::PolishError;
use crate::syntax::{has_unavailable_character, is_available_character, is_unavailable_character};

verus! {

/// A decimal digit.
pub open spec fn is_digit(c: char) -> bool {
    '0' <= c && c <= '9'
}

/// A sign in front of a number or of an exponent.
pub open spec fn is_sign(c: char) -> bool {
    c == '+' || c == '-'
}

/// A letter in either case.
pub open spec fn is_letter(c: char, lower: char, upper: char) -> bool {
    c == lower || c == upper
}

/// The index at which the run of digits that starts at `from` ends.
pub open spec fn digits_end(text: Seq<char>, from: int) -> int
    decreases text.len() - from,
{
    if 0 <= from < text.len() && is_digit(text[from]) {
        digits_end(text, from + 1)
    } else {
        from
    }
}

/// From `at` to its end the text is an exponent: the letter `e`, an optional
/// sign, and at least one digit.
pub open spec fn is_exponent(text: Seq<char>, at: int) -> bool {
    let digits = if at + 1 < text.len() && is_sign(text[at + 1]) {
        at + 2
    } else {
        at + 1
    };
    &&& 0 <= at < text.len()
    &&& is_letter(text[at], 'e', 'E')
    &&& digits < text.len()
    &&& digits_end(text, digits) == text.len()
}

/// From `start` to its end the text is a decimal number: digits with an
/// optional point among them, at least one digit in all, and an optional
/// exponent.
pub open spec fn is_decimal(text: Seq<char>, start: int) -> bool {
    let whole_end = digits_end(text, start);
    let fraction = if whole_end < text.len() && text[whole_end] == '.' {
        whole_end + 1
    } else {
        whole_end
    };
    let fraction_end = digits_end(text, fraction);
    &&& (whole_end - start) + (fraction_end - fraction) >= 1
    &&& (fraction_end == text.len() || is_exponent(text, fraction_end))
}

/// From `start` to its end the text spells `inf`, in any case.
pub open spec fn is_inf(text: Seq<char>, start: int) -> bool {
    &&& text.len() == start + 3
    &&& is_letter(text[start], 'i', 'I')
    &&& is_letter(text[start + 1], 'n', 'N')
    &&& is_letter(text[start + 2], 'f', 'F')
}

/// From `start` to its end the text spells `infinity`, in any case.
pub open spec fn is_infinity(text: Seq<char>, start: int) -> bool {
    &&& text.len() == start + 8
    &&& is_letter(text[start], 'i', 'I')
    &&& is_letter(text[start + 1], 'n', 'N')
    &&& is_letter(text[start + 2], 'f', 'F')
    &&& is_letter(text[start + 3], 'i', 'I')
    &&& is_letter(text[start + 4], 'n', 'N')
    &&& is_letter(text[start + 5], 'i', 'I')
    &&& is_letter(text[start + 6], 't', 'T')
    &&& is_letter(text[start + 7], 'y', 'Y')
}

/// From `start` to its end the text spells `nan`, in any case.
pub open spec fn is_nan(text: Seq<char>, start: int) -> bool {
    &&& text.len() == start + 3
    &&& is_letter(text[start], 'n', 'N')
    &&& is_letter(text[start + 1], 'a', 'A')
    &&& is_letter(text[start + 2], 'n', 'N')
}

/// Where the number begins: behind the sign, if there is one.
pub open spec fn number_start(text: Seq<char>) -> int {
    if text.len() > 0 && is_sign(text[0]) {
        1
    } else {
        0
    }
}

/// The text is a numeric literal: an optional sign, then a decimal number
/// or one of the words `inf`, `infinity` and `nan`.
pub open spec fn is_number(text: Seq<char>) -> bool {
    let start = number_start(text);
    is_inf(text, start) || is_infinity(text, start) || is_nan(text, start) || is_decimal(
        text,
        start,
    )
}

/// A run of digits ends inside the text, at its end or before a character
/// that is no digit.
pub proof fn lemma_digits_end(text: Seq<char>, from: int)
    requires
        0 <= from <= text.len(),
    ensures
        from <= digits_end(text, from) <= text.len(),
        digits_end(text, from) < text.len() ==> !is_digit(text[digits_end(text, from)]),
    decreases text.len() - from,
{
    if from < text.len() && is_digit(text[from]) {
        lemma_digits_end(text, from + 1);
    }
}

/// Among the words made of allowed characters the numeric literals are the
/// integers: an optional sign and at least one digit, nothing else.
pub proof fn lemma_available_number_is_integer(word: Seq<char>)
    requires
        !has_unavailable_character(word),
    ensures
        is_number(word) <==> number_start(word) < word.len() && digits_end(
            word,
            number_start(word),
        ) == word.len(),
{
    let start = number_start(word);
    let whole_end = digits_end(word, start);
    lemma_digits_end(word, start);
    if start < word.len() {
        assert(is_available_character(word[start]));
    }
    if whole_end < word.len() {
        assert(is_available_character(word[whole_end]));
        assert(digits_end(word, whole_end) == whole_end);
    } else {
        assert(digits_end(word, whole_end) == whole_end);
    }
}

/// The characters of a string, one by one.
fn characters(text: &str) -> (chars: Vec<char>)
    ensures
        chars@ == text@,
{
    let mut chars: Vec<char> = Vec::new();
    for c in it: text.chars()
        invariant
            it.seq() == text@,
            chars@ == it.seq().take(it.index() as int),
    {
        chars.push(c);
        assert(it.seq().take(it.index() + 1) == it.seq().take(it.index() as int).push(c));
    }
    assert(text@.take(text@.len() as int) == text@);
    chars
}

/// Finds the end of the run of digits that starts at `from`.
fn skip_digits(chars: &Vec<char>, from: usize) -> (end: usize)
    requires
        from <= chars.len(),
    ensures
        end == digits_end(chars@, from as int),
        from <= end <= chars.len(),
{
    let mut end: usize = from;
    while end < chars.len() && '0' <= chars[end] && chars[end] <= '9'
        invariant
            from <= end <= chars.len(),
            digits_end(chars@, from as int) == digits_end(chars@, end as int),
        decreases chars.len() - end,
    {
        end = end + 1;
    }
    end
}

/// Tests a character for a letter in either case.
fn letter(c: char, lower: char, upper: char) -> (same: bool)
    ensures
        same == is_letter(c, lower, upper),
{
    c == lower || c == upper
}

/// Tests the rest of the characters for one of the three words.
fn special(chars: &Vec<char>, start: usize) -> (found: bool)
    requires
        start <= chars.len(),
    ensures
        found == (is_inf(chars@, start as int) || is_infinity(chars@, start as int) || is_nan(
            chars@,
            start as int,
        )),
{
    let rest: usize = chars.len() - start;
    if rest == 3 {
        (letter(chars[start], 'i', 'I') && letter(chars[start + 1], 'n', 'N') && letter(
            chars[start + 2],
            'f',
            'F',
        )) || (letter(chars[start], 'n', 'N') && letter(chars[start + 1], 'a', 'A') && letter(
            chars[start + 2],
            'n',
            'N',
        ))
    } else if rest == 8 {
        letter(chars[start], 'i', 'I') && letter(chars[start + 1], 'n', 'N') && letter(
            chars[start + 2],
            'f',
            'F',
        ) && letter(chars[start + 3], 'i', 'I') && letter(chars[start + 4], 'n', 'N') && letter(
            chars[start + 5],
            'i',
            'I',
        ) && letter(chars[start + 6], 't', 'T') && letter(chars[start + 7], 'y', 'Y')
    } else {
        false
    }
}

/// Tests the characters from `at` on for an exponent.
fn exponent(chars: &Vec<char>, at: usize) -> (found: bool)
    requires
        at < chars.len(),
    ensures
        found == is_exponent(chars@, at as int),
{
    if !letter(chars[at], 'e', 'E') {
        return false;
    }
    let mut digits: usize = at + 1;
    if digits < chars.len() && (chars[digits] == '+' || chars[digits] == '-') {
        digits = digits + 1;
    }
    if digits >= chars.len() {
        return false;
    }
    skip_digits(chars, digits) == chars.len()
}

/// Tests the characters from `start` on for a decimal number.
fn decimal(chars: &Vec<char>, start: usize) -> (found: bool)
    requires
        start <= chars.len(),
    ensures
        found == is_decimal(chars@, start as int),
{
    let whole_end: usize = skip_digits(chars, start);
    let mut fraction: usize = whole_end;
    if whole_end < chars.len() && chars[whole_end] == '.' {
        fraction = whole_end + 1;
    }
    let fraction_end: usize = skip_digits(chars, fraction);
    if (whole_end - start) + (fraction_end - fraction) < 1 {
        return false;
    }
    if fraction_end == chars.len() {
        return true;
    }
    exponent(chars, fraction_end)
}

/// Tells whether a word is a numeric literal.
pub fn is_number_literal(word: &str) -> (found: bool)
    ensures
        found == is_number(word@),
{
    let chars = characters(word);
    let mut start: usize = 0;
    if chars.len() > 0 && (chars[0] == '+' || chars[0] == '-') {
        start = 1;
    }
    special(&chars, start) || decimal(&chars, start)
}

/// The mathematical model of a classified token.
pub ghost enum Token {
    Operator(Seq<char>),
    Operand(Seq<char>),
}

/// A token with its kind: the text of a numeric literal, or the text of
/// what stands where an operator is expected.
#[derive(Debug, PartialEq, Eq)]
pub enum TokenKind {
    Operator(String),
    Operand(String),
}

impl View for TokenKind {
    type V = Token;

    open spec fn view(&self) -> Token {
        match self {
            TokenKind::Operator(text) => Token::Operator(text@),
            TokenKind::Operand(text) => Token::Operand(text@),
        }
    }
}

/// The kind of a word: a numeric literal is an operand; any other word is an
/// operator if all its characters are allowed, and an error if not.
pub open spec fn classified(word: Seq<char>) -> Result<Token, PolishError> {
    if is_number(word) {
        Ok(Token::Operand(word))
    } else if !has_unavailable_character(word) {
        Ok(Token::Operator(word))
    } else {
        Err(PolishError::UseUnavailableCharacter)
    }
}

/// The model of a result that holds a token.
pub open spec fn token_outcome(result: Result<TokenKind, PolishError>) -> Result<
    Token,
    PolishError,
> {
    match result {
        Ok(kind) => Ok(kind@),
        Err(error) => Err(error),
    }
}

/// Classifies a word as an operand or an operator.
pub fn parse_token(word: &str) -> (result: Result<TokenKind, PolishError>)
    ensures
        token_outcome(result) == classified(word@),
{
    if is_number_literal(word) {
        Ok(TokenKind::Operand(String::from_str(word)))
    } else if !is_unavailable_character(word) {
        Ok(TokenKind::Operator(String::from_str(word)))
    } else {
        Err(PolishError::UseUnavailableCharacter)
    }
}

} // verus!

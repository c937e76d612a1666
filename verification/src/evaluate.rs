use vstd::prelude::*;
use vstd::string::*;

use crate::error::PolishError;
use crate::syntax::{syntax_check, syntax_checked};
use crate::term::{calculate, calculated, outcome, Term, Value};
use crate::token::{classified, parse_token, Token, TokenKind};

verus! {

/// Where the word that ends just before `end` begins: the run of
/// characters other than the space is followed back to its first one.
pub open spec fn word_start(text: Seq<char>, end: int) -> int
    decreases end,
{
    if 0 < end <= text.len() && text[end - 1] != ' ' {
        word_start(text, end - 1)
    } else {
        end
    }
}

/// A word begins at or before its end, and inside the text.
pub proof fn lemma_word_start_bounds(text: Seq<char>, end: int)
    requires
        0 <= end <= text.len(),
    ensures
        0 <= word_start(text, end) <= end,
        end > 0 && text[end - 1] != ' ' ==> word_start(text, end) < end,
    decreases end,
{
    if 0 < end && text[end - 1] != ' ' {
        lemma_word_start_bounds(text, end - 1);
    }
}

/// The words among the first `end` characters of the text, in the order in
/// which they stand: the maximal runs of characters other than the space.
pub open spec fn words_before(text: Seq<char>, end: int) -> Seq<Seq<char>>
    decreases end,
{
    if end <= 0 || end > text.len() {
        Seq::empty()
    } else if text[end - 1] == ' ' {
        words_before(text, end - 1)
    } else {
        proof {
            lemma_word_start_bounds(text, end);
        }
        let start = word_start(text, end);
        words_before(text, start).push(text.subrange(start, end))
    }
}

/// The words of an expression. Only the space parts them: an expression that
/// passed validation holds no other blank character.
pub open spec fn words(text: Seq<char>) -> Seq<Seq<char>> {
    words_before(text, text.len() as int)
}

/// The operand stack after one more word: an operand is pushed; an operator
/// takes the two values pushed last and leaves their combination, the last
/// one on the left.
pub open spec fn applied(stack: Seq<Term>, word: Seq<char>) -> Result<Seq<Term>, PolishError> {
    match classified(word) {
        Err(error) => Err(error),
        Ok(Token::Operand(text)) => Ok(stack.push(Term::Number(text))),
        Ok(Token::Operator(ops)) => {
            if stack.len() < 2 {
                Err(PolishError::NotEnoughOperands)
            } else {
                match calculated(stack[stack.len() - 1], stack[stack.len() - 2], ops) {
                    Err(error) => Err(error),
                    Ok(term) => Ok(stack.take(stack.len() - 2).push(term)),
                }
            }
        },
    }
}

/// The operand stack after the words were taken one by one from the last to
/// the first, or the first failure on the way.
pub open spec fn reduced(words: Seq<Seq<char>>, stack: Seq<Term>) -> Result<
    Seq<Term>,
    PolishError,
>
    decreases words.len(),
{
    if words.len() == 0 {
        Ok(stack)
    } else {
        match applied(stack, words.last()) {
            Err(error) => Err(error),
            Ok(next) => reduced(words.drop_last(), next),
        }
    }
}

/// What is left of a finished reduction: the one value, or a failure.
pub open spec fn finished(stack: Seq<Term>) -> Result<Term, PolishError> {
    if stack.len() == 1 {
        Ok(stack[0])
    } else {
        Err(PolishError::FailedCalculate)
    }
}

/// The value of an expression in prefix notation.
pub open spec fn evaluated(expression: Seq<char>) -> Result<Term, PolishError> {
    match syntax_checked(expression) {
        Err(error) => Err(error),
        Ok(_) => match reduced(words(expression), Seq::empty()) {
            Err(error) => Err(error),
            Ok(stack) => finished(stack),
        },
    }
}

/// The terms of the values on a stack.
pub open spec fn terms(stack: Seq<Value>) -> Seq<Term> {
    stack.map_values(|value: Value| value@)
}

/// Evaluation is a function of the expression alone: whatever two
/// evaluations of one expression return stands for the same outcome.
pub proof fn lemma_evaluation_is_a_function(
    expression: Seq<char>,
    first: Result<Value, PolishError>,
    second: Result<Value, PolishError>,
)
    requires
        outcome(first) == evaluated(expression),
        outcome(second) == evaluated(expression),
    ensures
        outcome(first) == outcome(second),
        first is Ok <==> second is Ok,
        first is Err ==> first == second,
{
}

/// Finds where the word that ends just before `end` begins.
fn word_begin(expression: &str, end: usize) -> (start: usize)
    requires
        is_ascii(expression),
        0 < end <= expression@.len(),
        expression@[end - 1] != ' ',
    ensures
        start == word_start(expression@, end as int),
        start < end,
{
    let mut start: usize = end - 1;
    while start > 0 && expression.get_ascii(start - 1) != 32u8
        invariant
            is_ascii(expression),
            start < end <= expression@.len(),
            word_start(expression@, end as int) == word_start(expression@, start as int),
        decreases start,
    {
        start = start - 1;
    }
    start
}

/// Evaluates an expression in prefix notation. The words are taken from the
/// last to the first: an operand is pushed on the stack, an operator combines
/// the two values pushed last. The value is returned as the term that was
/// built, with the text of each numeric literal at its leaves.
pub fn pn(expression: &str) -> (result: Result<Value, PolishError>)
    ensures
        outcome(result) == evaluated(expression@),
{
    match syntax_check(expression) {
        Ok(_) => {},
        Err(e) => return Err(e),
    }
    let mut operands: Vec<Value> = Vec::new();
    let mut end: usize = expression.unicode_len();
    assert(terms(operands@) =~= Seq::empty());
    while end > 0
        invariant
            is_ascii(expression),
            syntax_checked(expression@) is Ok,
            end <= expression@.len(),
            reduced(words(expression@), Seq::empty()) == reduced(
                words_before(expression@, end as int),
                terms(operands@),
            ),
        decreases end,
    {
        if expression.get_ascii(end - 1) == 32u8 {
            end = end - 1;
        } else {
            let start = word_begin(expression, end);
            let token = expression.substring_ascii(start, end);
            let ghost before = terms(operands@);
            proof {
                let taken = words_before(expression@, end as int);
                assert(taken.last() == token@);
                assert(taken.drop_last() =~= words_before(expression@, start as int));
            }
            match parse_token(token) {
                Ok(kind) => {
                    let result = match kind {
                        TokenKind::Operand(opnd) => Value::Number(opnd),
                        TokenKind::Operator(ops) => {
                            if operands.len() < 2 {
                                return Err(PolishError::NotEnoughOperands);
                            }
                            let top = operands.pop().unwrap();
                            let second = operands.pop().unwrap();
                            match calculate(top, second, ops.as_str()) {
                                Ok(result) => result,
                                Err(e) => return Err(e),
                            }
                        },
                    };
                    operands.push(result);
                    assert(applied(before, token@) is Ok);
                    assert(terms(operands@) =~= applied(before, token@)->Ok_0);
                },
                Err(e) => return Err(e),
            }
            end = start;
        }
    }
    if operands.len() == 1 {
        Ok(operands.pop().unwrap())
    } else {
        Err(PolishError::FailedCalculate)
    }
}

} // verus!

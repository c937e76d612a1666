use vstd::prelude::*;

use crate::error::PolishError;
use crate::evaluate::{
    applied, evaluated, lemma_word_start_bounds, reduced, word_start, words, words_before,
};
use crate::syntax::{has_unavailable_character, is_available_character, syntax_checked};
use crate::term::{calculated, Operator, Term};
use crate::token::{classified, digits_end, is_number, Token};

verus! {

impl Term {
    /// Every leaf is a numeric literal made of allowed characters.
    pub open spec fn is_well_formed(self) -> bool
        decreases self,
    {
        match self {
            Term::Number(text) => is_number(text) && !has_unavailable_character(text),
            Term::Combined(_, left, right) => (*left).is_well_formed() && (*right).is_well_formed(),
        }
    }

    /// The term in prefix notation, word by word: an operator stands before
    /// its left operand, and that before the right one.
    pub open spec fn prefix_words(self) -> Seq<Seq<char>>
        decreases self,
    {
        match self {
            Term::Number(text) => seq![text],
            Term::Combined(operator, left, right) => {
                seq![operator.symbol()] + (*left).prefix_words() + (*right).prefix_words()
            },
        }
    }

    /// The number of operators in the term.
    pub open spec fn operators(self) -> nat
        decreases self,
    {
        match self {
            Term::Number(_) => 0,
            Term::Combined(_, left, right) => 1 + (*left).operators() + (*right).operators(),
        }
    }

    /// The number of numeric literals in the term.
    pub open spec fn operands(self) -> nat
        decreases self,
    {
        match self {
            Term::Number(_) => 1,
            Term::Combined(_, left, right) => (*left).operands() + (*right).operands(),
        }
    }
}

/// A term with N operators has N + 1 operands, and its prefix notation has
/// one word for each of them.
pub proof fn lemma_operands_exceed_operators_by_one(term: Term)
    ensures
        term.operands() == term.operators() + 1,
        term.prefix_words().len() == term.operators() + term.operands(),
    decreases term,
{
    match term {
        Term::Number(_) => {},
        Term::Combined(_, left, right) => {
            lemma_operands_exceed_operators_by_one(*left);
            lemma_operands_exceed_operators_by_one(*right);
        },
    }
}

/// An operator symbol is no numeric literal: it is classified as an operator.
pub proof fn lemma_symbol_is_operator(operator: Operator)
    ensures
        classified(operator.symbol()) == Ok::<Token, PolishError>(
            Token::Operator(operator.symbol()),
        ),
        Operator::of_symbol(operator.symbol()) == Some(operator),
{
    let symbol = operator.symbol();
    assert(symbol.len() == 1);
    assert(is_available_character(symbol[0]));
    reveal_with_fuel(digits_end, 2);
    assert(!is_number(symbol));
}

/// Reducing words that end in the prefix notation of a well-formed term
/// comes to putting that term on the stack and reducing the words before it.
pub proof fn lemma_reduces_prefix_words(before: Seq<Seq<char>>, term: Term, stack: Seq<Term>)
    requires
        term.is_well_formed(),
    ensures
        reduced(before + term.prefix_words(), stack) == reduced(before, stack.push(term)),
    decreases term,
{
    match term {
        Term::Number(text) => {
            let all = before + term.prefix_words();
            assert(all.last() == text);
            assert(all.drop_last() =~= before);
        },
        Term::Combined(operator, left, right) => {
            let symbol = operator.symbol();
            let all = before + term.prefix_words();
            let head = before.push(symbol);
            assert(all =~= (head + (*left).prefix_words()) + (*right).prefix_words());
            lemma_reduces_prefix_words(head + (*left).prefix_words(), *right, stack);
            let with_right = stack.push(*right);
            lemma_reduces_prefix_words(head, *left, with_right);
            let with_both = with_right.push(*left);
            assert(head.last() == symbol);
            assert(head.drop_last() =~= before);
            lemma_symbol_is_operator(operator);
            assert(calculated(*left, *right, symbol) == Ok::<Term, PolishError>(term));
            assert(with_both.take(with_both.len() - 2).push(term) =~= stack.push(term));
            assert(applied(with_both, symbol) == Ok::<Seq<Term>, PolishError>(stack.push(term)));
        },
    }
}

/// Where all words among the first `end` characters are made of allowed
/// characters, so are those characters.
pub proof fn lemma_words_cover_text(text: Seq<char>, end: int)
    requires
        0 <= end <= text.len(),
        forall|k: int|
            0 <= k < words_before(text, end).len() ==> !has_unavailable_character(
                #[trigger] words_before(text, end)[k],
            ),
    ensures
        forall|i: int| 0 <= i < end ==> is_available_character(#[trigger] text[i]),
    decreases end,
{
    if end > 0 {
        if text[end - 1] == ' ' {
            assert(words_before(text, end) == words_before(text, end - 1));
            lemma_words_cover_text(text, end - 1);
        } else {
            lemma_word_start_bounds(text, end);
            let start = word_start(text, end);
            let taken = words_before(text, end);
            let word = text.subrange(start, end);
            assert(taken == words_before(text, start).push(word));
            assert forall|k: int| 0 <= k < words_before(text, start).len() implies 
                !has_unavailable_character(#[trigger] words_before(text, start)[k]) by {
                assert(words_before(text, start)[k] == taken[k]);
            }
            lemma_words_cover_text(text, start);
            assert(taken[taken.len() - 1] == word);
            assert forall|i: int| start <= i < end implies is_available_character(
                #[trigger] text[i],
            ) by {
                assert(text[i] == word[i - start]);
            }
        }
    }
}

/// The words of a well-formed term in prefix notation are all made of
/// allowed characters.
pub proof fn lemma_prefix_words_are_available(term: Term)
    requires
        term.is_well_formed(),
    ensures
        term.prefix_words().len() > 0,
        forall|k: int|
            0 <= k < term.prefix_words().len() ==> !has_unavailable_character(
                #[trigger] term.prefix_words()[k],
            ),
    decreases term,
{
    match term {
        Term::Number(text) => {},
        Term::Combined(operator, left, right) => {
            lemma_prefix_words_are_available(*left);
            lemma_prefix_words_are_available(*right);
            let symbol = operator.symbol();
            assert(is_available_character(symbol[0]));
            assert(!has_unavailable_character(symbol));
            let first = seq![symbol];
            let l = (*left).prefix_words();
            let r = (*right).prefix_words();
            assert forall|k: int| 0 <= k < term.prefix_words().len() implies 
                !has_unavailable_character(#[trigger] term.prefix_words()[k]) by {
                if k == 0 {
                    assert(term.prefix_words()[k] == symbol);
                } else if k < 1 + l.len() {
                    assert(term.prefix_words()[k] == l[k - 1]);
                } else {
                    assert(term.prefix_words()[k] == r[k - 1 - l.len()]);
                }
            }
        },
    }
}

/// An expression whose words are the prefix notation of a well-formed term,
/// with N operators and N + 1 operands, evaluates to that term: the
/// reduction ends with this one value on the stack.
pub proof fn lemma_prefix_expression_evaluates(expression: Seq<char>, term: Term)
    requires
        term.is_well_formed(),
        words(expression) == term.prefix_words(),
    ensures
        reduced(words(expression), Seq::empty()) == Ok::<Seq<Term>, PolishError>(seq![term]),
        evaluated(expression) == Ok::<Term, PolishError>(term),
        term.operands() == term.operators() + 1,
{
    lemma_operands_exceed_operators_by_one(term);
    lemma_prefix_words_are_available(term);
    lemma_words_cover_text(expression, expression.len() as int);
    assert(expression.len() > 0);
    assert(syntax_checked(expression) is Ok);
    let none = Seq::<Seq<char>>::empty();
    assert(none + term.prefix_words() =~= term.prefix_words());
    lemma_reduces_prefix_words(none, term, Seq::empty());
    assert(Seq::<Term>::empty().push(term) =~= seq![term]);
    assert(reduced(none, seq![term]) == Ok::<Seq<Term>, PolishError>(seq![term]));
}

/// The words that a stack of terms spells: the prefix notation of each
/// term, from the one pushed last to the one pushed first.
pub open spec fn stack_words(stack: Seq<Term>) -> Seq<Seq<char>>
    decreases stack.len(),
{
    if stack.len() == 0 {
        Seq::empty()
    } else {
        stack.last().prefix_words() + stack_words(stack.drop_last())
    }
}

/// Every term on the stack is well formed.
pub open spec fn is_well_formed_stack(stack: Seq<Term>) -> bool {
    forall|k: int| 0 <= k < stack.len() ==> (#[trigger] stack[k]).is_well_formed()
}

/// A step that succeeds puts its word in front of the words that the stack
/// spells, and keeps the stack well formed if the word is made of allowed
/// characters.
pub proof fn lemma_step_keeps_words(stack: Seq<Term>, word: Seq<char>)
    requires
        applied(stack, word) is Ok,
    ensures
        stack_words(applied(stack, word)->Ok_0) == seq![word] + stack_words(stack),
        is_well_formed_stack(stack) && !has_unavailable_character(word)
            ==> is_well_formed_stack(applied(stack, word)->Ok_0),
{
    let next = applied(stack, word)->Ok_0;
    match classified(word) {
        Err(_) => {},
        Ok(Token::Operand(text)) => {
            assert(next.drop_last() =~= stack);
            assert(next.last().prefix_words() =~= seq![word]);
        },
        Ok(Token::Operator(ops)) => {
            let n = stack.len() as int;
            let left = stack[n - 1];
            let right = stack[n - 2];
            let rest = stack.take(n - 2);
            let operator = Operator::of_symbol(ops)->Some_0;
            let term = Term::Combined(operator, Box::new(left), Box::new(right));
            assert(next == rest.push(term));
            assert(ops =~= operator.symbol());
            assert(next.drop_last() =~= rest);
            assert(stack.drop_last().drop_last() =~= rest);
            assert(stack.drop_last().last() == right);
            assert(stack.last() == left);
            assert(stack_words(stack.drop_last()) == right.prefix_words() + stack_words(rest));
            assert(stack_words(stack) == left.prefix_words() + (right.prefix_words()
                + stack_words(rest)));
            assert(next.last() == term);
            assert(term.prefix_words() == seq![ops] + left.prefix_words()
                + right.prefix_words());
            assert(stack_words(next) =~= seq![word] + stack_words(stack));
        },
    }
}

/// A reduction that succeeds spells, on the stack it leaves, the words it
/// took followed by the words that the stack spelled before.
pub proof fn lemma_reduction_keeps_words(taken: Seq<Seq<char>>, stack: Seq<Term>)
    requires
        reduced(taken, stack) is Ok,
    ensures
        stack_words(reduced(taken, stack)->Ok_0) == taken + stack_words(stack),
        is_well_formed_stack(stack) && (forall|k: int|
            0 <= k < taken.len() ==> !has_unavailable_character(#[trigger] taken[k]))
            ==> is_well_formed_stack(reduced(taken, stack)->Ok_0),
    decreases taken.len(),
{
    if taken.len() == 0 {
        assert(taken + stack_words(stack) =~= stack_words(stack));
    } else {
        let word = taken.last();
        let next = applied(stack, word)->Ok_0;
        lemma_step_keeps_words(stack, word);
        lemma_reduction_keeps_words(taken.drop_last(), next);
        assert(taken.drop_last() + (seq![word] + stack_words(stack)) =~= taken + stack_words(
            stack,
        ));
        assert forall|k: int| 0 <= k < taken.drop_last().len() implies taken.drop_last()[k]
            == taken[k] by {}
    }
}

/// Where the first `end` characters are all allowed, so are the characters
/// of every word among them.
pub proof fn lemma_words_of_available_text(text: Seq<char>, end: int)
    requires
        0 <= end <= text.len(),
        forall|i: int| 0 <= i < end ==> is_available_character(#[trigger] text[i]),
    ensures
        forall|k: int|
            0 <= k < words_before(text, end).len() ==> !has_unavailable_character(
                #[trigger] words_before(text, end)[k],
            ),
    decreases end,
{
    if end > 0 {
        if text[end - 1] == ' ' {
            assert(words_before(text, end) == words_before(text, end - 1));
            lemma_words_of_available_text(text, end - 1);
        } else {
            lemma_word_start_bounds(text, end);
            let start = word_start(text, end);
            lemma_words_of_available_text(text, start);
            let word = text.subrange(start, end);
            let taken = words_before(text, end);
            assert(taken == words_before(text, start).push(word));
            assert forall|j: int| 0 <= j < word.len() implies is_available_character(
                #[trigger] word[j],
            ) by {
                assert(word[j] == text[start + j]);
            }
            assert forall|k: int| 0 <= k < taken.len() implies !has_unavailable_character(
                #[trigger] taken[k],
            ) by {
                if k < taken.len() - 1 {
                    assert(taken[k] == words_before(text, start)[k]);
                } else {
                    assert(taken[k] == word);
                }
            }
        }
    }
}

/// The value of an expression spells the expression: an evaluation that
/// succeeds returns a well-formed term whose prefix notation is, word by
/// word, the expression.
pub proof fn lemma_value_spells_expression(expression: Seq<char>, term: Term)
    requires
        evaluated(expression) == Ok::<Term, PolishError>(term),
    ensures
        term.is_well_formed(),
        words(expression) == term.prefix_words(),
        reduced(words(expression), Seq::empty()) == Ok::<Seq<Term>, PolishError>(seq![term]),
{
    let none = Seq::<Term>::empty();
    let stack = reduced(words(expression), none)->Ok_0;
    assert forall|i: int| 0 <= i < expression.len() implies is_available_character(
        #[trigger] expression[i],
    ) by {}
    lemma_words_of_available_text(expression, expression.len() as int);
    lemma_reduction_keeps_words(words(expression), none);
    assert(stack.len() == 1 && stack[0] == term);
    assert(stack =~= seq![term]);
    assert(stack.drop_last() =~= none);
    assert(stack_words(stack) =~= term.prefix_words());
    assert(words(expression) + stack_words(none) =~= words(expression));
}

} // verus!

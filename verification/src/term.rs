use vstd::prelude::*;
use vstd::string::*;

use crate::error::PolishError;

verus! {

/// The five binary operators.
#[derive(Debug, Clone, Copy, PartialEq, Eq, Structural)]
pub enum Operator {
    Add,
    Sub,
    Mul,
    Div,
    Rem,
}

impl Operator {
    /// The character that stands for the operator.
    pub open spec fn sign(self) -> char {
        match self {
            Operator::Add => '+',
            Operator::Sub => '-',
            Operator::Mul => '*',
            Operator::Div => '/',
            Operator::Rem => '%',
        }
    }

    /// The token that stands for the operator: its sign alone.
    pub open spec fn symbol(self) -> Seq<char> {
        seq![self.sign()]
    }

    /// The operator that a token stands for, if it is one of the five signs.
    pub open spec fn of_symbol(symbol: Seq<char>) -> Option<Operator> {
        if symbol.len() != 1 {
            None
        } else if symbol[0] == '+' {
            Some(Operator::Add)
        } else if symbol[0] == '-' {
            Some(Operator::Sub)
        } else if symbol[0] == '*' {
            Some(Operator::Mul)
        } else if symbol[0] == '/' {
            Some(Operator::Div)
        } else if symbol[0] == '%' {
            Some(Operator::Rem)
        } else {
            None
        }
    }

    /// Recognises an operator symbol.
    pub fn from_symbol(symbol: &str) -> (found: Option<Operator>)
        ensures
            found == Operator::of_symbol(symbol@),
    {
        if symbol.unicode_len() != 1 {
            return None;
        }
        let sign = symbol.get_char(0);
        if sign == '+' {
            Some(Operator::Add)
        } else if sign == '-' {
            Some(Operator::Sub)
        } else if sign == '*' {
            Some(Operator::Mul)
        } else if sign == '/' {
            Some(Operator::Div)
        } else if sign == '%' {
            Some(Operator::Rem)
        } else {
            None
        }
    }
}

/// The mathematical model of a value: a numeric literal, or an operator
/// applied to a left and a right value.
pub ghost enum Term {
    Number(Seq<char>),
    Combined(Operator, Box<Term>, Box<Term>),
}

/// A value on the operand stack, kept symbolic: the text of a numeric
/// literal, or an operator with the two values it combines, left one first.
#[derive(Debug, PartialEq, Eq)]
pub enum Value {
    Number(String),
    Combined(Operator, Box<Value>, Box<Value>),
}

impl Value {
    /// The term that the value stands for.
    pub open spec fn term(self) -> Term
        decreases self,
    {
        match self {
            Value::Number(text) => Term::Number(text@),
            Value::Combined(operator, left, right) => Term::Combined(
                operator,
                Box::new((*left).term()),
                Box::new((*right).term()),
            ),
        }
    }
}

impl View for Value {
    type V = Term;

    open spec fn view(&self) -> Term {
        self.term()
    }
}

impl Clone for Value {
    /// Copies the value, leaf by leaf.
    fn clone(&self) -> (copy: Self)
        ensures
            copy@ == self@,
        decreases self,
    {
        match self {
            Value::Number(text) => Value::Number(text.clone()),
            Value::Combined(operator, left, right) => Value::Combined(
                *operator,
                Box::new((**left).clone()),
                Box::new((**right).clone()),
            ),
        }
    }
}

/// The model of a result that holds a value.
pub open spec fn outcome(result: Result<Value, PolishError>) -> Result<Term, PolishError> {
    match result {
        Ok(value) => Ok(value@),
        Err(error) => Err(error),
    }
}

/// What combining `a` and `b` under the token `ops` gives: the operator's
/// term with `a` on the left, or a failure where the token is no operator.
pub open spec fn calculated(a: Term, b: Term, ops: Seq<char>) -> Result<Term, PolishError> {
    match Operator::of_symbol(ops) {
        Some(operator) => Ok(Term::Combined(operator, Box::new(a), Box::new(b))),
        None => Err(PolishError::FailedCalculate),
    }
}

/// Combines two values under an operator symbol.
pub fn calculate(a: Value, b: Value, ops: &str) -> (result: Result<Value, PolishError>)
    ensures
        outcome(result) == calculated(a@, b@, ops@),
{
    match Operator::from_symbol(ops) {
        Some(operator) => Ok(Value::Combined(operator, Box::new(a), Box::new(b))),
        None => Err(PolishError::FailedCalculate),
    }
}

} // verus!

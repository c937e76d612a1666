use polish_notation::term::{Operator, Value};
use polish_notation::{pn, PolishError};

fn number(value: &Value) -> f64 {
    match value {
        Value::Number(text) => text.parse::<f64>().unwrap(),
        Value::Combined(operator, left, right) => {
            let a = number(left);
            let b = number(right);
            match operator {
                Operator::Add => a + b,
                Operator::Sub => a - b,
                Operator::Mul => a * b,
                Operator::Div => a / b,
                Operator::Rem => a % b,
            }
        }
    }
}

fn evaluate(expression: &str) -> Result<f64, PolishError> {
    pn(expression).map(|value| number(&value))
}

fn literal(text: &str) -> Value {
    Value::Number(text.to_string())
}

fn combined(operator: Operator, left: Value, right: Value) -> Value {
    Value::Combined(operator, Box::new(left), Box::new(right))
}

#[test]
fn test() {
    let exoressions = [
        ("+ 5 2 ", Ok(7.0)),
        ("- 5 2", Ok(3.0)),
        ("* 5 2 ", Ok(10.0)),
        ("/ 5 2", Ok(2.5)),
        ("% 5 2 ", Ok(1.0)),
        ("1", Ok(1.0)),
        ("-1", Ok(-1.0)),
        ("* [ 5 1 = 7  1", Err(PolishError::UseUnavailableCharacter)),
        ("* + 5 1 - 7", Err(PolishError::NotEnoughOperands)),
        ("", Err(PolishError::NotEnteredExoression)),
    ];
    for exoression in exoressions {
        println!("{:?}", exoression);
        assert_eq!(evaluate(exoression.0), exoression.1);
    }
}

#[test]
fn use_test() {
    match evaluate("+ 5 1") {
        Ok(result) => println!("{}", result),
        Err(e) => println!("{}", e.message()),
    };
}

#[test]
fn empty_expression_is_not_entered() {
    assert_eq!(pn(""), Err(PolishError::NotEnteredExoression));
}

#[test]
fn unavailable_characters_are_refused() {
    assert_eq!(pn("* [ 5 1 = 7 1"), Err(PolishError::UseUnavailableCharacter));
    assert_eq!(pn("+ 1 a"), Err(PolishError::UseUnavailableCharacter));
    assert_eq!(pn("+ 1.5 2"), Err(PolishError::UseUnavailableCharacter));
    assert_eq!(pn("+ 1e5 2"), Err(PolishError::UseUnavailableCharacter));
    assert_eq!(pn("+ 1\t2"), Err(PolishError::UseUnavailableCharacter));
    assert_eq!(pn("+ 1 2\n"), Err(PolishError::UseUnavailableCharacter));
    assert_eq!(pn("^ 2 3"), Err(PolishError::UseUnavailableCharacter));
    assert_eq!(pn("+ 1 \u{e9}"), Err(PolishError::UseUnavailableCharacter));
}

#[test]
fn unavailable_character_comes_before_any_reduction() {
    assert_eq!(pn("[ + 1"), Err(PolishError::UseUnavailableCharacter));
    assert_eq!(pn("= 1 2 3"), Err(PolishError::UseUnavailableCharacter));
}

#[test]
fn operator_with_one_operand_is_not_enough() {
    assert_eq!(pn("* + 5 1 - 7"), Err(PolishError::NotEnoughOperands));
    assert_eq!(pn("+"), Err(PolishError::NotEnoughOperands));
    assert_eq!(pn("+ 1"), Err(PolishError::NotEnoughOperands));
    assert_eq!(pn("1 +"), Err(PolishError::NotEnoughOperands));
}

#[test]
fn too_few_operands_come_before_an_unknown_symbol() {
    assert_eq!(pn("++ 1"), Err(PolishError::NotEnoughOperands));
    assert_eq!(pn("++ 1 2"), Err(PolishError::FailedCalculate));
}

#[test]
fn unknown_symbols_fail_to_calculate() {
    assert_eq!(pn("++ 1 2"), Err(PolishError::FailedCalculate));
    assert_eq!(pn("+- 1 2"), Err(PolishError::FailedCalculate));
    assert_eq!(pn("5+ 1 2"), Err(PolishError::FailedCalculate));
    assert_eq!(pn("--5 1 2"), Err(PolishError::FailedCalculate));
    assert_eq!(pn("1-2 1 2"), Err(PolishError::FailedCalculate));
}

#[test]
fn the_rightmost_failure_is_reported() {
    assert_eq!(pn("++ 1 2 +"), Err(PolishError::NotEnoughOperands));
    assert_eq!(pn("+ ++ 1 2"), Err(PolishError::FailedCalculate));
}

#[test]
fn leftover_operands_fail_to_calculate() {
    assert_eq!(pn("5 2"), Err(PolishError::FailedCalculate));
    assert_eq!(pn("+ 1 2 3"), Err(PolishError::FailedCalculate));
    assert_eq!(pn("1 + 2 3"), Err(PolishError::FailedCalculate));
}

#[test]
fn spaces_alone_fail_to_calculate() {
    assert_eq!(pn(" "), Err(PolishError::FailedCalculate));
    assert_eq!(pn("     "), Err(PolishError::FailedCalculate));
}

#[test]
fn each_operator_on_five_and_two() {
    assert_eq!(evaluate("+ 5 2"), Ok(7.0));
    assert_eq!(evaluate("- 5 2"), Ok(3.0));
    assert_eq!(evaluate("* 5 2"), Ok(10.0));
    assert_eq!(evaluate("/ 5 2"), Ok(2.5));
    assert_eq!(evaluate("% 5 2"), Ok(1.0));
}

#[test]
fn single_operands_evaluate_to_themselves() {
    assert_eq!(evaluate("1"), Ok(1.0));
    assert_eq!(evaluate("-1"), Ok(-1.0));
    assert_eq!(evaluate("+7"), Ok(7.0));
    assert_eq!(evaluate("007"), Ok(7.0));
    assert_eq!(pn("1"), Ok(literal("1")));
    assert_eq!(pn("-1"), Ok(literal("-1")));
}

#[test]
fn division_by_zero_is_no_error() {
    assert_eq!(evaluate("/ 5 0"), Ok(f64::INFINITY));
    assert_eq!(evaluate("/ -5 0"), Ok(f64::NEG_INFINITY));
    assert!(evaluate("% 5 0").unwrap().is_nan());
    assert!(evaluate("/ 0 0").unwrap().is_nan());
}

#[test]
fn the_value_is_the_term_of_the_expression() {
    assert_eq!(
        pn("+ 5 2"),
        Ok(combined(Operator::Add, literal("5"), literal("2")))
    );
    assert_eq!(
        pn("- 5 2"),
        Ok(combined(Operator::Sub, literal("5"), literal("2")))
    );
    assert_eq!(
        pn("* + 5 1 - 7 1"),
        Ok(combined(
            Operator::Mul,
            combined(Operator::Add, literal("5"), literal("1")),
            combined(Operator::Sub, literal("7"), literal("1")),
        ))
    );
    assert_eq!(evaluate("* + 5 1 - 7 1"), Ok(36.0));
}

#[test]
fn nested_expressions_reduce_to_one_value() {
    assert_eq!(evaluate("- * / 15 - 7 + 1 1 3 + 2 + 1 1"), Ok(5.0));
    assert_eq!(evaluate("+ 1 + 2 + 3 + 4 5"), Ok(15.0));
    assert_eq!(evaluate("+ + + + 1 2 3 4 5"), Ok(15.0));
    assert_eq!(evaluate("- - 10 3 2"), Ok(5.0));
    assert_eq!(evaluate("- 10 - 3 2"), Ok(9.0));
    assert_eq!(evaluate("/ 1 / 2 4"), Ok(2.0));
}

#[test]
fn signed_literals_are_operands() {
    assert_eq!(evaluate("- -1 -2"), Ok(1.0));
    assert_eq!(evaluate("+ +1 -2"), Ok(-1.0));
    assert_eq!(evaluate("* -3 -3"), Ok(9.0));
    assert_eq!(evaluate("% -5 2"), Ok(-1.0));
}

#[test]
fn spaces_between_and_around_words_do_not_count() {
    assert_eq!(evaluate("  +   5    2   "), Ok(7.0));
    assert_eq!(evaluate(" 1"), Ok(1.0));
    assert_eq!(evaluate("1 "), Ok(1.0));
    assert_eq!(
        pn("   -  5 2"),
        Ok(combined(Operator::Sub, literal("5"), literal("2")))
    );
}

#[test]
fn long_literals_keep_their_text() {
    let text = "123456789012345678901234567890";
    assert_eq!(pn(text), Ok(literal(text)));
    assert_eq!(evaluate(text), Ok(123456789012345678901234567890.0));
}

#[test]
fn evaluating_twice_gives_the_same() {
    for expression in ["+ 5 2", "/ 5 0", "% 5 0", "", "5 2", "* + 5 1 - 7", "[", "- * 2 3 4"] {
        let first = pn(expression);
        let second = pn(expression);
        assert_eq!(first, second);
        let a = first.map(|value| number(&value).to_bits());
        let b = second.map(|value| number(&value).to_bits());
        assert_eq!(a, b);
    }
}

#[test]
fn success_has_one_operand_more_than_operators() {
    fn count(value: &Value) -> (usize, usize) {
        match value {
            Value::Number(_) => (0, 1),
            Value::Combined(_, left, right) => {
                let l = count(left);
                let r = count(right);
                (1 + l.0 + r.0, l.1 + r.1)
            }
        }
    }
    for expression in ["7", "+ 5 2", "* + 5 1 - 7 1", "- * / 15 - 7 + 1 1 3 + 2 + 1 1"] {
        let value = pn(expression).unwrap();
        let (operators, operands) = count(&value);
        assert_eq!(operands, operators + 1);
        assert_eq!(expression.split(' ').count(), operators + operands);
    }
}

#[test]
fn the_value_spells_the_expression() {
    fn spell(value: &Value, out: &mut Vec<String>) {
        match value {
            Value::Number(text) => out.push(text.clone()),
            Value::Combined(operator, left, right) => {
                let sign = match operator {
                    Operator::Add => "+",
                    Operator::Sub => "-",
                    Operator::Mul => "*",
                    Operator::Div => "/",
                    Operator::Rem => "%",
                };
                out.push(sign.to_string());
                spell(left, out);
                spell(right, out);
            }
        }
    }
    for expression in ["7", "+ 5 2", "* + 5 1 - 7 1", "% -5 +2", "- * / 15 - 7 + 1 1 3 + 2 + 1 1"] {
        let value = pn(expression).unwrap();
        let mut words: Vec<String> = Vec::new();
        spell(&value, &mut words);
        assert_eq!(words.join(" "), expression);
    }
}

#[test]
fn a_copy_is_the_same_value() {
    for expression in ["7", "+ 5 2", "* + 5 1 - 7 1"] {
        let value = pn(expression).unwrap();
        let copy = value.clone();
        assert_eq!(copy, value);
        assert_eq!(number(&copy).to_bits(), number(&value).to_bits());
    }
}

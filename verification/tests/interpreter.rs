use riolox::error::LuxError;
use riolox::interpreter::{comparison_holds, Arithmetic, Interpreter, Order, Value};
use riolox::parser::Parser;
use riolox::scanner::Scanner;
use riolox::token::{Numeral, Token, TokenLiteral, TokenType};
use riolox::visitor::SafeVisitor;
use riolox::{Diagnostics, Expr};
use std::cell::Cell;
use std::rc::Rc;

/// The numbers of the language: 64-bit floating point. It counts the
/// operations asked of it.
struct Floats {
    calls: Cell<usize>,
}

impl Floats {
    fn new() -> Floats {
        Floats { calls: Cell::new(0) }
    }

    fn count(&self) {
        self.calls.set(self.calls.get() + 1);
    }
}

impl Arithmetic for Floats {
    type Number = f64;

    fn number(&self, numeral: &Numeral) -> f64 {
        self.count();
        numeral.text().parse().unwrap()
    }

    fn negate(&self, operand: &f64) -> f64 {
        self.count();
        -operand
    }

    fn sum(&self, left: &f64, right: &f64) -> f64 {
        self.count();
        left + right
    }

    fn difference(&self, left: &f64, right: &f64) -> f64 {
        self.count();
        left - right
    }

    fn product(&self, left: &f64, right: &f64) -> f64 {
        self.count();
        left * right
    }

    fn quotient(&self, left: &f64, right: &f64) -> f64 {
        self.count();
        left / right
    }

    fn order(&self, left: &f64, right: &f64) -> Order {
        self.count();
        match left.partial_cmp(right) {
            Some(std::cmp::Ordering::Less) => Order::Less,
            Some(std::cmp::Ordering::Equal) => Order::Equal,
            Some(std::cmp::Ordering::Greater) => Order::Greater,
            None => Order::Unordered,
        }
    }
}

fn parse(source: &str) -> Rc<Expr> {
    let mut scanner = Scanner::new(source.to_owned());
    let mut sink = Diagnostics::new();
    let tokens = scanner.scan_tokens(&mut sink).to_vec();
    let mut parser = Parser::new(tokens);
    let expr = parser.parse(&mut sink).expect("an expression");
    assert!(sink.lines.is_empty());
    expr
}

fn evaluate(source: &str) -> Result<Value<f64>, LuxError> {
    Interpreter::new(Floats::new()).evaluate(&parse(source))
}

fn number(source: &str) -> f64 {
    match evaluate(source) {
        Ok(Value::Number(n)) => n,
        other => panic!("{:?} gives {:?}", source, other),
    }
}

fn boolean(source: &str) -> bool {
    match evaluate(source) {
        Ok(Value::Boolean(b)) => b,
        other => panic!("{:?} gives {:?}", source, other),
    }
}

fn text(source: &str) -> String {
    match evaluate(source) {
        Ok(Value::String(s)) => s,
        other => panic!("{:?} gives {:?}", source, other),
    }
}

fn type_error(source: &str, kind: TokenType, message: &str) {
    match evaluate(source) {
        Err(LuxError::Interpreter(k, m)) => {
            assert_eq!(k, kind, "source {:?}", source);
            assert_eq!(m, message, "source {:?}", source);
        },
        other => panic!("{:?} gives {:?}", source, other),
    }
}

fn runtime_failure(source: &str) {
    assert!(matches!(evaluate(source), Err(LuxError::Runtime)), "source {:?}", source);
}

#[test]
fn addition_of_numbers() {
    assert_eq!(evaluate("1 + 2").ok(), Some(Value::Number(3.0)));
    assert_eq!(number("1 + 2"), 3.0);
    assert_eq!(number("0.1 + 0.2"), 0.1 + 0.2);
}

#[test]
fn addition_of_strings() {
    assert_eq!(text("\"a\" + \"b\""), "ab");
    assert_eq!(text("\"\" + \"\""), "");
    assert_eq!(text("\"a\" + \"b\" + \"c d\""), "abc d");
}

#[test]
fn addition_of_a_number_and_a_string_fails() {
    let message = "Operand must be either numbers or strings.";
    type_error("1 + \"a\"", TokenType::Plus, message);
    type_error("\"a\" + 1", TokenType::Plus, message);
    type_error("true + true", TokenType::Plus, message);
    type_error("1 + true", TokenType::Plus, message);
    type_error("\"a\" + false", TokenType::Plus, message);
}

#[test]
fn arithmetic() {
    assert_eq!(number("7 - 10"), -3.0);
    assert_eq!(number("6 * 7"), 42.0);
    assert_eq!(number("7 / 2"), 3.5);
    assert_eq!(number("1 + 2 * 3"), 7.0);
    assert_eq!(number("(1 + 2) * 3"), 9.0);
    assert_eq!(number("8 / 4 / 2"), 1.0);
    assert_eq!(number("1 - 2 - 3"), -4.0);
}

#[test]
fn division_by_zero_is_no_error() {
    assert_eq!(number("1 / 0"), f64::INFINITY);
    assert_eq!(number("-1 / 0"), f64::NEG_INFINITY);
    assert!(number("0 / 0").is_nan());
}

#[test]
fn arithmetic_on_other_values_fails() {
    let message = "Operands must be numbers.";
    type_error("1 - \"a\"", TokenType::Minus, message);
    type_error("\"a\" * 2", TokenType::Star, message);
    type_error("true / 2", TokenType::Slash, message);
    type_error("\"a\" - \"b\"", TokenType::Minus, message);
}

#[test]
fn negation() {
    assert_eq!(number("-5"), -5.0);
    assert_eq!(number("--5"), 5.0);
    assert!(number("-0").is_sign_negative());
    assert_eq!(number("-(1 + 2)"), -3.0);
}

#[test]
fn negation_of_other_values_fails() {
    let message = "Operand must be a number.";
    type_error("-\"a\"", TokenType::Minus, message);
    type_error("-true", TokenType::Minus, message);
    type_error("-(1 < 2)", TokenType::Minus, message);
}

#[test]
fn logical_negation() {
    assert!(!boolean("!true"));
    assert!(boolean("!false"));
    assert!(boolean("!!true"));
    assert!(boolean("!(1 > 2)"));
}

#[test]
fn logical_negation_of_other_values_fails() {
    runtime_failure("!1");
    runtime_failure("!\"a\"");
    runtime_failure("!(1 + 2)");
}

#[test]
fn comparisons() {
    assert!(boolean("1 < 2"));
    assert!(!boolean("2 < 2"));
    assert!(boolean("2 <= 2"));
    assert!(!boolean("3 <= 2"));
    assert!(boolean("3 > 2"));
    assert!(!boolean("2 > 2"));
    assert!(boolean("2 >= 2"));
    assert!(!boolean("1 >= 2"));
    assert!(boolean("1 + 1 == 2"));
    assert!(!boolean("1 == 2"));
    assert!(boolean("1 != 2"));
    assert!(!boolean("2 != 2"));
}

#[test]
fn comparisons_with_what_is_not_a_number() {
    assert!(!boolean("0 / 0 == 0 / 0"));
    assert!(boolean("0 / 0 != 0 / 0"));
    assert!(!boolean("0 / 0 < 1"));
    assert!(!boolean("0 / 0 >= 1"));
    assert!(boolean("0 == -0"));
}

#[test]
fn comparisons_of_other_values_fail() {
    let message = "Operands must be numbers.";
    type_error("1 < \"a\"", TokenType::Less, message);
    type_error("\"a\" <= 1", TokenType::LessEqual, message);
    type_error("true > false", TokenType::Greater, message);
    type_error("\"a\" >= \"b\"", TokenType::GreaterEqual, message);
    type_error("\"a\" == \"a\"", TokenType::EqualEqual, message);
    type_error("true != false", TokenType::BangEqual, message);
    type_error("1 == true", TokenType::EqualEqual, message);
}

#[test]
fn comparison_holds_by_the_order() {
    let table = [
        (TokenType::Greater, [false, false, true, false]),
        (TokenType::GreaterEqual, [false, true, true, false]),
        (TokenType::Less, [true, false, false, false]),
        (TokenType::LessEqual, [true, true, false, false]),
        (TokenType::EqualEqual, [false, true, false, false]),
        (TokenType::BangEqual, [true, false, true, true]),
    ];
    let orders = [Order::Less, Order::Equal, Order::Greater, Order::Unordered];
    for (kind, expected) in table {
        for (order, holds) in orders.iter().zip(expected) {
            assert_eq!(comparison_holds(kind, *order), holds, "{:?} {:?}", kind, order);
        }
    }
}

#[test]
fn ternary_takes_one_branch() {
    assert_eq!(number("true ? 1 : 2"), 1.0);
    assert_eq!(number("false ? 1 : 2"), 2.0);
    assert_eq!(text("1 < 2 ? \"yes\" : 3"), "yes");
    assert_eq!(number("1 > 2 ? \"yes\" : 3"), 3.0);
}

#[test]
fn the_untaken_branch_is_not_evaluated() {
    // The untaken branch would fail.
    assert_eq!(number("true ? 1 : -\"a\""), 1.0);
    assert_eq!(number("false ? 1 + \"a\" : 2"), 2.0);
    type_error("false ? 1 : -\"a\"", TokenType::Minus, "Operand must be a number.");

    // Nothing is asked of the arithmetic for the untaken branch.
    let interpreter = Interpreter::new(Floats::new());
    let out = interpreter.evaluate(&parse("true ? 1 : 2 + 3 * 4"));
    assert_eq!(out.ok(), Some(Value::Number(1.0)));
    assert_eq!(interpreter.numbers.calls.get(), 1);

    let interpreter = Interpreter::new(Floats::new());
    let out = interpreter.evaluate(&parse("false ? 1 - 2 - 3 : 4"));
    assert_eq!(out.ok(), Some(Value::Number(4.0)));
    assert_eq!(interpreter.numbers.calls.get(), 1);
}

#[test]
fn a_condition_that_is_no_boolean_fails() {
    runtime_failure("1 ? 2 : 3");
    runtime_failure("\"a\" ? 2 : 3");
    type_error("-true ? 2 : 3", TokenType::Minus, "Operand must be a number.");
}

#[test]
fn the_left_operand_is_evaluated_first_and_a_failure_ends_the_evaluation() {
    type_error("-\"a\" + -true", TokenType::Minus, "Operand must be a number.");
    type_error("(1 - \"a\") * (2 < true)", TokenType::Minus, "Operands must be numbers.");
    type_error("1 * (2 < true)", TokenType::Less, "Operands must be numbers.");

    // The right operand is not looked at once the left one has failed.
    let interpreter = Interpreter::new(Floats::new());
    assert!(interpreter.evaluate(&parse("-\"a\" + 1 * 2")).is_err());
    assert_eq!(interpreter.numbers.calls.get(), 0);

    // Both operands are evaluated before the operator looks at them.
    let interpreter = Interpreter::new(Floats::new());
    assert!(interpreter.evaluate(&parse("\"a\" * (1 + 2)")).is_err());
    assert_eq!(interpreter.numbers.calls.get(), 3);
}

#[test]
fn grouping_evaluates_its_inside() {
    assert_eq!(number("((7))"), 7.0);
    assert_eq!(text("(\"a\")"), "a");
    assert!(boolean("(true)"));
}

#[test]
fn literals_evaluate_to_themselves() {
    assert_eq!(number("12.5"), 12.5);
    assert_eq!(text("\"a b\""), "a b");
    assert!(boolean("true"));
    assert!(!boolean("false"));
}

#[test]
fn the_comma_has_no_value() {
    runtime_failure("1, 2");
}

#[test]
fn other_operators_have_no_value() {
    let one = || Rc::new(Expr::Literal(TokenLiteral::Num(Numeral::new("1").unwrap())));
    let interpreter = Interpreter::new(Floats::new());
    for kind in [TokenType::And, TokenType::Equal, TokenType::Dot, TokenType::Eof] {
        let token = Token::new(kind, String::new(), "", 1);
        let binary = Expr::Binary(one(), token.clone(), one());
        assert!(matches!(interpreter.evaluate(&binary), Err(LuxError::Runtime)));
        let unary = Expr::Unary(token, one());
        assert!(matches!(interpreter.evaluate(&unary), Err(LuxError::Runtime)));
    }
    let plus = Token::new(TokenType::Plus, String::new(), "+", 1);
    assert!(matches!(interpreter.evaluate(&Expr::Unary(plus, one())), Err(LuxError::Runtime)));
}

#[test]
fn check_num_operand_accepts_numbers_only() {
    let interpreter = Interpreter::new(Floats::new());
    assert!(interpreter.check_num_operand(TokenType::Minus, &Value::Number(1.0)).is_ok());
    for value in [Value::String("1".to_owned()), Value::Boolean(true)] {
        match interpreter.check_num_operand(TokenType::Minus, &value) {
            Err(LuxError::Interpreter(kind, message)) => {
                assert_eq!(kind, TokenType::Minus);
                assert_eq!(message, "Operand must be a number.");
            },
            other => panic!("{:?}", other),
        }
    }
}

#[test]
fn check_num_operands_accepts_two_numbers_only() {
    let interpreter = Interpreter::new(Floats::new());
    let number = || Value::Number(1.0);
    let string = || Value::String("1".to_owned());
    assert!(interpreter.check_num_operands(TokenType::Star, &number(), &number()).is_ok());
    for (left, right) in [(number(), string()), (string(), number()), (string(), string()), (Value::Boolean(true), number())] {
        match interpreter.check_num_operands(TokenType::Star, &left, &right) {
            Err(LuxError::Interpreter(kind, message)) => {
                assert_eq!(kind, TokenType::Star);
                assert_eq!(message, "Operands must be numbers.");
            },
            other => panic!("{:?}", other),
        }
    }
}

#[test]
fn unary_and_binary_apply_one_operator() {
    let interpreter = Interpreter::new(Floats::new());
    assert_eq!(interpreter.unary(TokenType::Minus, Value::Number(2.0)).ok(), Some(Value::Number(-2.0)));
    assert_eq!(interpreter.unary(TokenType::Bang, Value::Boolean(false)).ok(), Some(Value::Boolean(true)));
    assert_eq!(
        interpreter.binary(TokenType::Slash, Value::Number(1.0), Value::Number(4.0)).ok(),
        Some(Value::Number(0.25))
    );
    assert_eq!(
        interpreter.binary(TokenType::Plus, Value::String("x".to_owned()), Value::String("y".to_owned())).ok(),
        Some(Value::String("xy".to_owned()))
    );
    assert_eq!(
        interpreter.binary(TokenType::GreaterEqual, Value::Number(1.0), Value::Number(4.0)).ok(),
        Some(Value::Boolean(false))
    );
}

#[test]
fn the_interpreter_is_a_visitor_that_cannot_be_changed() {
    let mut interpreter = Interpreter::new(Floats::new());
    let expr = parse("1 + 2");
    assert_eq!(SafeVisitor::visit(&interpreter, &expr).ok(), Some(Value::Number(3.0)));
    assert!(matches!(interpreter.visit_mut(&expr), Err(LuxError::Runtime)));
}

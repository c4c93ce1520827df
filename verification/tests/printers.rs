use riolox::parser::Parser;
use riolox::printers::AstPrinter;
use riolox::scanner::Scanner;
use riolox::token::{Numeral, Token, TokenLiteral, TokenType};
use riolox::visitor::Visitor;
use riolox::{Diagnostics, Expr};
use std::rc::Rc;

fn number(text: &str) -> Expr {
    Expr::Literal(TokenLiteral::Num(Numeral::new(text).unwrap()))
}

fn parse_and_print(source: &str) -> String {
    let mut scanner = Scanner::new(source.to_owned());
    let mut sink = Diagnostics::new();
    let tokens = scanner.scan_tokens(&mut sink).to_vec();
    let mut parser = Parser::new(tokens);
    let expr = parser.parse(&mut sink).unwrap();
    assert!(sink.lines.is_empty());
    AstPrinter.print(&expr)
}

#[test]
fn test_first() {
    let minus = Token::new(TokenType::Minus, "-".to_owned(), "-", 1);
    let unary = Rc::new(Expr::Unary(minus, Rc::new(number("123"))));
    let grouping = Rc::new(Expr::Grouping(Rc::new(number("45.67"))));
    let expr = Expr::Binary(
        unary,
        Token::new(TokenType::Star, "*".to_owned(), "*", 1),
        grouping,
    );

    let printer = AstPrinter {};
    let result = printer.print(&expr);

    assert_eq!("(* (- 123) (group 45.67))", result)
}

#[test]
fn parse_then_print() {
    assert_eq!(parse_and_print("-123 * (45.67)"), "(* (- 123) (group 45.67))");
    assert_eq!(parse_and_print("1 + 2 * 3"), "(+ 1 (* 2 3))");
    assert_eq!(parse_and_print("true ? \"a\" : \"b\""), "(? true a b)");
}

#[test]
fn literals_print_as_written() {
    let printer = AstPrinter;
    assert_eq!(printer.print(&number("1.50")), "1.50");
    assert_eq!(printer.print(&Expr::Literal(TokenLiteral::Str("a (b)".to_owned()))), "a (b)");
    assert_eq!(printer.print(&Expr::Literal(TokenLiteral::Str(String::new()))), "");
    assert_eq!(printer.print(&Expr::Literal(TokenLiteral::Bool(true))), "true");
    assert_eq!(printer.print(&Expr::Literal(TokenLiteral::Bool(false))), "false");
}

#[test]
fn operations_print_in_parentheses_of_their_own() {
    for source in ["-1", "!true", "1 + 2", "(1)", "true ? 1 : 2", "1, 2", "((1 < 2) == true)"] {
        let text = parse_and_print(source);
        assert!(text.starts_with('('), "source {:?}", source);
        assert!(text.ends_with(')'), "source {:?}", source);
        let mut depth: i64 = 0;
        for c in text.chars() {
            if c == '(' {
                depth += 1;
            }
            if c == ')' {
                depth -= 1;
            }
            assert!(depth >= 0);
        }
        assert_eq!(depth, 0, "source {:?}", source);
    }
}

#[test]
fn the_operator_is_printed_by_its_lexeme() {
    let expr = Expr::Binary(
        Rc::new(number("1")),
        Token::new(TokenType::GreaterEqual, "ignored".to_owned(), ">=", 1),
        Rc::new(number("2")),
    );
    assert_eq!(AstPrinter.print(&expr), "(>= 1 2)");
}

#[test]
fn parenthesize_joins_name_and_parts() {
    let printer = AstPrinter;
    assert_eq!(printer.parenthesize("nothing", vec![]), "(nothing)");
    assert_eq!(printer.parenthesize("+", vec!["1".to_owned(), "(* 2 3)".to_owned()]), "(+ 1 (* 2 3))");
    assert_eq!(printer.parenthesize("", vec!["".to_owned()]), "( )");
}

#[test]
fn the_printer_is_a_visitor() {
    let expr = Expr::Grouping(Rc::new(number("7")));
    let mut printer = AstPrinter;
    assert_eq!(Visitor::visit(&printer, &expr), "(group 7)");
    assert_eq!(printer.visit_mut(&expr), "(group 7)");
    assert_eq!(expr.visit::<AstPrinter, String>(&printer), "(group 7)");
}

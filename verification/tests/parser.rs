use riolox::error::ParseError;
use riolox::parser::Parser;
use riolox::printers::AstPrinter;
use riolox::scanner::Scanner;
use riolox::token::{Token, TokenLiteral, TokenType};
use riolox::{Diagnostics, Expr};
use std::rc::Rc;

fn tokens_of(source: &str) -> Vec<Token> {
    let mut scanner = Scanner::new(source.to_owned());
    let mut sink = Diagnostics::new();
    let tokens = scanner.scan_tokens(&mut sink).to_vec();
    assert!(sink.lines.is_empty(), "scanner reports: {:?}", sink.lines);
    tokens
}

/// The expression, the reports and the cursor after parsing `source`.
fn parse(source: &str) -> (Option<Rc<Expr>>, Vec<String>, usize) {
    let mut parser = Parser::new(tokens_of(source));
    let mut sink = Diagnostics::new();
    let expr = parser.parse(&mut sink);
    (expr, sink.lines, parser.current())
}

fn printed(source: &str) -> String {
    let (expr, reports, _) = parse(source);
    assert!(reports.is_empty(), "parser reports: {:?}", reports);
    AstPrinter.print(&expr.expect("an expression"))
}

fn fails_with(source: &str, reports: &[&str], cursor: usize) {
    let (expr, lines, current) = parse(source);
    assert!(expr.is_none(), "source {:?}", source);
    assert_eq!(lines, reports, "source {:?}", source);
    assert_eq!(current, cursor, "source {:?}", source);
}

#[test]
fn multiplication_binds_tighter_than_addition() {
    assert_eq!(printed("1 + 2 * 3"), "(+ 1 (* 2 3))");
    assert_eq!(printed("1 * 2 + 3"), "(+ (* 1 2) 3)");
    assert_eq!(printed("1 - 2 / 3 - 4"), "(- (- 1 (/ 2 3)) 4)");
}

#[test]
fn the_levels_from_loose_to_tight() {
    assert_eq!(
        printed("1 == 2 < 3 + 4 * -5"),
        "(== 1 (< 2 (+ 3 (* 4 (- 5)))))"
    );
    assert_eq!(
        printed("-1 * 2 + 3 < 4 == 5"),
        "(== (< (+ (* (- 1) 2) 3) 4) 5)"
    );
    assert_eq!(printed("1 != 2 >= 3 - 4 / !true"), "(!= 1 (>= 2 (- 3 (/ 4 (! true)))))");
}

#[test]
fn binary_operators_associate_to_the_left() {
    assert_eq!(printed("1 - 2 - 3"), "(- (- 1 2) 3)");
    assert_eq!(printed("8 / 4 / 2 * 3"), "(* (/ (/ 8 4) 2) 3)");
    assert_eq!(printed("1 < 2 <= 3 > 4 >= 5"), "(>= (> (<= (< 1 2) 3) 4) 5)");
    assert_eq!(printed("1 == 2 != 3 == 4"), "(== (!= (== 1 2) 3) 4)");
}

#[test]
fn unary_operators_nest_to_the_right() {
    assert_eq!(printed("!!true"), "(! (! true))");
    assert_eq!(printed("--1"), "(- (- 1))");
    assert_eq!(printed("-!-2"), "(- (! (- 2)))");
    assert_eq!(printed("1 - -2"), "(- 1 (- 2))");
}

#[test]
fn grouping_is_kept_as_a_node() {
    assert_eq!(printed("(1)"), "(group 1)");
    assert_eq!(printed("((1))"), "(group (group 1))");
    assert_eq!(printed("(1 + 2) * 3"), "(* (group (+ 1 2)) 3)");
    assert_eq!(printed("-123 * (45.67)"), "(* (- 123) (group 45.67))");
}

#[test]
fn literals() {
    assert_eq!(printed("true"), "true");
    assert_eq!(printed("false"), "false");
    assert_eq!(printed("12.50"), "12.50");
    assert_eq!(printed("\"a b\""), "a b");
    let (expr, _, cursor) = parse("\"text\"");
    match &*expr.unwrap() {
        Expr::Literal(TokenLiteral::Str(s)) => assert_eq!(s, "text"),
        other => panic!("no string literal: {:?}", other),
    }
    assert_eq!(cursor, 1);
    let (expr, _, _) = parse("true");
    assert!(matches!(&*expr.unwrap(), Expr::Literal(TokenLiteral::Bool(true))));
    let (expr, _, _) = parse("false");
    assert!(matches!(&*expr.unwrap(), Expr::Literal(TokenLiteral::Bool(false))));
}

#[test]
fn ternary_branches_are_equalities() {
    assert_eq!(printed("true ? 1 : 2"), "(? true 1 2)");
    assert_eq!(printed("1 < 2 ? 3 + 4 : 5 == 6"), "(? (< 1 2) (+ 3 4) (== 5 6))");
    assert_eq!(printed("(true ? 1 : 2) ? 3 : 4"), "(? (group (? true 1 2)) 3 4)");
}

#[test]
fn a_ternary_in_a_branch_is_not_parsed_by_the_ternary() {
    // The else branch is an equality: the second `?` is left where it is.
    let (expr, reports, cursor) = parse("true ? 1 : false ? 2 : 3");
    assert!(reports.is_empty());
    assert_eq!(AstPrinter.print(&expr.unwrap()), "(? true 1 false)");
    assert_eq!(cursor, 5);
}

#[test]
fn comma_takes_a_ternary_first_and_equalities_after() {
    assert_eq!(printed("1, 2"), "(, 1 2)");
    assert_eq!(printed("1, 2, 3"), "(, (, 1 2) 3)");
    assert_eq!(printed("true ? 1 : 2, 3 + 4"), "(, (? true 1 2) (+ 3 4))");
    // Behind a comma stands an equality, so a `?` there ends the parse.
    let (expr, reports, cursor) = parse("1, true ? 2 : 3");
    assert!(reports.is_empty());
    assert_eq!(AstPrinter.print(&expr.unwrap()), "(, 1 true)");
    assert_eq!(cursor, 3);
}

#[test]
fn parsing_stops_at_the_first_token_that_does_not_continue() {
    let (expr, reports, cursor) = parse("1 + 2 3");
    assert!(reports.is_empty());
    assert_eq!(AstPrinter.print(&expr.unwrap()), "(+ 1 2)");
    assert_eq!(cursor, 3);
    let (expr, _, cursor) = parse("1 ) 2");
    assert_eq!(AstPrinter.print(&expr.unwrap()), "1");
    assert_eq!(cursor, 1);
}

#[test]
fn the_operator_token_is_kept_in_the_node() {
    let (expr, _, _) = parse("1\n<=\n2");
    match &*expr.unwrap() {
        Expr::Binary(_, op, _) => {
            assert_eq!(op.token_type(), &TokenType::LessEqual);
            assert_eq!(op.lexeme(), "<=");
            assert_eq!(op.line(), 2);
        },
        other => panic!("no binary node: {:?}", other),
    }
}

#[test]
fn nothing_to_parse_is_an_error() {
    fails_with("", &["[line 1] Error : Expected expression."], 0);
    fails_with("\n\n", &["[line 3] Error : Expected expression."], 0);
    fails_with(")", &["[line 1] Error : Expected expression."], 0);
    fails_with("witam", &["[line 1] Error : Expected expression."], 0);
    fails_with("nil", &["[line 1] Error : Expected expression."], 0);
    fails_with("1 +", &["[line 1] Error : Expected expression."], 2);
    fails_with("1 +\n\n*", &["[line 3] Error : Expected expression.", "[line 3] Error : Expected left hand operand"], 3);
    fails_with("-", &["[line 1] Error : Expected expression."], 1);
}

#[test]
fn a_missing_right_parenthesis_is_an_error() {
    fails_with("(1", &["[line 1] Error : Expected ')' after expression."], 2);
    fails_with("(1 + 2", &["[line 1] Error : Expected ')' after expression."], 4);
    fails_with("(1\n+ 2 3)", &["[line 2] Error : Expected ')' after expression."], 4);
    fails_with("((1)", &["[line 1] Error : Expected ')' after expression."], 4);
}

#[test]
fn a_missing_colon_is_an_error() {
    fails_with("true ? 1", &["[line 1] Error : Expected ':'."], 3);
    fails_with("true ? 1 2", &["[line 1] Error : Expected ':'."], 3);
    fails_with("true\n?\n1 + 2\n", &["[line 3] Error : Expected ':'."], 5);
    fails_with("true ? : 2", &["[line 1] Error : Expected expression."], 2);
}

#[test]
fn a_bare_equality_operator_is_an_error_that_moves_the_cursor() {
    fails_with("== 5", &["[line 1] Error : Expected left hand operand"], 2);
    fails_with("!= 5 == 6", &["[line 1] Error : Expected left hand operand"], 4);
}

#[test]
fn every_bare_binary_operator_is_an_error_that_moves_the_cursor() {
    for operator in ["==", "!=", "<", "<=", ">", ">=", "+", "/", "*"] {
        let source = format!("{} 5", operator);
        fails_with(&source, &["[line 1] Error : Expected left hand operand"], 2);
    }
    // The right operand is parsed at the operator's own level.
    fails_with("* 2 * 3 + 4", &["[line 1] Error : Expected left hand operand"], 4);
    fails_with("+ 2 * 3 + 4 < 5", &["[line 1] Error : Expected left hand operand"], 6);
    fails_with("< 2 * 3 + 4 < 5 == 6", &["[line 1] Error : Expected left hand operand"], 8);
    fails_with("== 2 * 3 + 4 < 5 == 6 ? 7", &["[line 1] Error : Expected left hand operand"], 10);
}

#[test]
fn what_the_skipped_operand_violates_is_reported_first() {
    fails_with(
        "== (1",
        &[
            "[line 1] Error : Expected ')' after expression.",
            "[line 1] Error : Expected left hand operand",
        ],
        3,
    );
    fails_with(
        "+\n*\n/",
        &[
            "[line 3] Error : Expected expression.",
            "[line 3] Error : Expected left hand operand",
            "[line 2] Error : Expected left hand operand",
            "[line 1] Error : Expected left hand operand",
        ],
        3,
    );
    fails_with("1 + * 2", &["[line 1] Error : Expected left hand operand"], 4);
}

#[test]
fn a_bare_minus_negates() {
    assert_eq!(printed("- 5"), "(- 5)");
}

#[test]
fn the_cursor_stops_at_the_end_of_the_input() {
    let (expr, _, cursor) = parse("1 + 2");
    assert!(expr.is_some());
    assert_eq!(cursor, 3);
    let mut parser = Parser::new(tokens_of("1"));
    let mut sink = Diagnostics::new();
    assert!(parser.parse(&mut sink).is_some());
    assert_eq!(parser.current(), 1);
    // At the end of the input a second parse finds nothing and stays.
    assert!(parser.parse(&mut sink).is_none());
    assert_eq!(parser.current(), 1);
    assert_eq!(sink.lines, vec!["[line 1] Error : Expected expression.".to_owned()]);
}

#[test]
fn parser_reports_are_added_behind_earlier_ones() {
    let mut parser = Parser::new(tokens_of("("));
    let mut sink = Diagnostics::new();
    sink.lines.push("earlier".to_owned());
    assert!(parser.parse(&mut sink).is_none());
    assert_eq!(
        sink.lines,
        vec!["earlier".to_owned(), "[line 1] Error : Expected expression.".to_owned()]
    );
}

#[test]
fn synchronize_stops_behind_a_semicolon() {
    let mut parser = Parser::new(tokens_of("1 2 ; 3 4"));
    parser.synchronize();
    assert_eq!(parser.current(), 3);
    parser.synchronize();
    assert_eq!(parser.current(), 5);
    parser.synchronize();
    assert_eq!(parser.current(), 5);
}

#[test]
fn synchronize_stops_at_a_statement_keyword() {
    for keyword in ["class", "fun", "var", "for", "if", "while", "print", "return"] {
        let source = format!("1 + 2 {} x", keyword);
        let mut parser = Parser::new(tokens_of(&source));
        parser.synchronize();
        assert_eq!(parser.current(), 3, "keyword {}", keyword);
        // The keyword at the cursor is itself discarded by the next call.
        parser.synchronize();
        assert_eq!(parser.current(), 5, "keyword {}", keyword);
    }
    let mut parser = Parser::new(tokens_of("1 else and nil 2"));
    parser.synchronize();
    assert_eq!(parser.current(), 5);
}

#[test]
fn synchronize_discards_the_token_at_the_cursor() {
    let mut parser = Parser::new(tokens_of("; ; 1"));
    parser.synchronize();
    assert_eq!(parser.current(), 1);
    parser.synchronize();
    assert_eq!(parser.current(), 2);
    let mut parser = Parser::new(tokens_of(""));
    parser.synchronize();
    assert_eq!(parser.current(), 0);
}

#[test]
fn after_synchronize_the_next_form_parses() {
    let mut parser = Parser::new(tokens_of("1 + ; 2 * 3"));
    let mut sink = Diagnostics::new();
    assert!(parser.parse(&mut sink).is_none());
    assert_eq!(parser.current(), 2);
    parser.synchronize();
    assert_eq!(parser.current(), 3);
    let expr = parser.parse(&mut sink).unwrap();
    assert_eq!(AstPrinter.print(&expr), "(* 2 3)");
    assert_eq!(sink.lines.len(), 1);
}

#[test]
fn parse_error_token_and_message() {
    let token = Token::new(TokenType::Plus, "+".to_owned(), "+", 7);
    let error = ParseError::Generic(Rc::new(token), "Expected left hand operand".to_owned());
    assert_eq!(error.token().token_type(), &TokenType::Plus);
    assert_eq!(error.token().line(), 7);
    assert_eq!(error.to_string(), "Expected left hand operand");
}

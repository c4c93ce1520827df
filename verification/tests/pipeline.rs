use riolox::printers::AstPrinter;
use riolox::{parse_source, try_run, CompilationError, Diagnostics};

#[test]
fn try_run_prints_the_expression() {
    let mut sink = Diagnostics::new();
    assert_eq!(try_run("-123 * (45.67)".to_owned(), &mut sink), Ok("(* (- 123) (group 45.67))".to_owned()));
    assert_eq!(try_run("1 + 2 * 3".to_owned(), &mut sink), Ok("(+ 1 (* 2 3))".to_owned()));
    assert!(sink.lines.is_empty());
}

#[test]
fn try_run_fails_where_nothing_parses() {
    let mut sink = Diagnostics::new();
    assert_eq!(try_run("== 5".to_owned(), &mut sink), Err(CompilationError::UndefinedError));
    assert_eq!(sink.lines, vec!["[line 1] Error : Expected left hand operand".to_owned()]);
}

#[test]
fn the_scanner_reports_before_the_parser() {
    let mut sink = Diagnostics::new();
    assert_eq!(try_run("(1 @\n\"a".to_owned(), &mut sink), Err(CompilationError::UndefinedError));
    assert_eq!(
        sink.lines,
        vec![
            "[line 1] Error : Unexpected character".to_owned(),
            "[line 2] Error : Unterminated string".to_owned(),
            "[line 1] Error : Expected ')' after expression.".to_owned(),
        ]
    );
}

#[test]
fn what_the_scanner_skips_does_not_stop_the_parser() {
    let mut sink = Diagnostics::new();
    assert_eq!(try_run("1 @ + 2".to_owned(), &mut sink), Ok("(+ 1 2)".to_owned()));
    assert_eq!(sink.lines, vec!["[line 1] Error : Unexpected character".to_owned()]);
}

#[test]
fn parse_source_gives_the_expression() {
    let mut sink = Diagnostics::new();
    let expr = parse_source("true ? 1 : 2".to_owned(), &mut sink).unwrap();
    assert_eq!(AstPrinter.print(&expr), "(? true 1 2)");
    assert!(parse_source("// nothing".to_owned(), &mut sink).is_none());
    assert_eq!(sink.lines, vec!["[line 1] Error : Expected expression.".to_owned()]);
}

use riolox::{decimal_text, error, report, Diagnostics};

#[test]
fn report_formats_the_line() {
    let mut sink = Diagnostics::new();
    report(&mut sink, 12, "at end", "Expected expression.");
    assert_eq!(sink.lines, vec!["[line 12] Error at end: Expected expression.".to_owned()]);
}

#[test]
fn error_has_no_context() {
    let mut sink = Diagnostics::new();
    error(&mut sink, 3, "Unterminated string");
    assert_eq!(sink.lines, vec!["[line 3] Error : Unterminated string".to_owned()]);
}

#[test]
fn reports_keep_their_order() {
    let mut sink = Diagnostics::new();
    error(&mut sink, 1, "a");
    report(&mut sink, 2, "b", "c");
    error(&mut sink, 0, "");
    assert_eq!(
        sink.lines,
        vec![
            "[line 1] Error : a".to_owned(),
            "[line 2] Error b: c".to_owned(),
            "[line 0] Error : ".to_owned()
        ]
    );
}

#[test]
fn decimal_text_writes_numbers() {
    assert_eq!(decimal_text(0), "0");
    assert_eq!(decimal_text(7), "7");
    assert_eq!(decimal_text(10), "10");
    assert_eq!(decimal_text(1234567890), "1234567890");
    assert_eq!(decimal_text(100200), "100200");
    assert_eq!(decimal_text(usize::MAX), usize::MAX.to_string());
}

#[test]
fn a_new_sink_is_empty() {
    assert!(Diagnostics::new().lines.is_empty());
}

//! The front end of a small scripting language: a scanner that turns source
//! text into tokens, a recursive-descent parser that turns tokens into an
//! expression tree, and an interpreter that evaluates the tree.
//!
//! Nothing here prints. Whatever the scanner and the parser have to report
//! is appended, as finished lines, to a `Diagnostics` value that the caller
//! passes in.

use vstd::prelude::*;
use vstd::string::StringExecFns;
use std::rc::Rc;
use crate::grammar::{
    expression, fits, kinds_of, lemma_expression, lemma_faithful, lemma_stops_before_end,
    literal_matches_kind, literals_match_kinds, reports, written_with, Rule,
};
use crate::parser::Parser;
use crate::printers::{rendered, AstPrinter};
use crate::scanner::{
    carries_its_kind, lemma_ends_with_eof, lemma_tokens_carry_their_kinds, lex, Scanner,
};
use crate::token::{views, Token, TokenLiteral, TokenType, TokenView};
use crate::visitor::Visitor;

pub mod error;
pub mod grammar;
pub mod interpreter;
pub mod parser;
pub mod printers;
pub mod scanner;
pub mod text;
pub mod token;
pub mod visitor;

verus! {

/// The character that writes the digit `d`.
pub open spec fn digit_char(d: nat) -> char {
    if d == 0 {
        '0'
    } else if d == 1 {
        '1'
    } else if d == 2 {
        '2'
    } else if d == 3 {
        '3'
    } else if d == 4 {
        '4'
    } else if d == 5 {
        '5'
    } else if d == 6 {
        '6'
    } else if d == 7 {
        '7'
    } else if d == 8 {
        '8'
    } else {
        '9'
    }
}

/// The decimal notation of `n`, without leading zeros.
pub open spec fn decimal(n: nat) -> Seq<char>
    decreases n,
{
    if n < 10 {
        seq![digit_char(n)]
    } else {
        decimal(n / 10).push(digit_char(n % 10))
    }
}

/// The number that a sequence of digit characters writes.
pub open spec fn decimal_value(digits: Seq<char>) -> nat
    decreases digits.len(),
{
    if digits.len() == 0 {
        0
    } else {
        10 * decimal_value(digits.drop_last()) + ((digits.last() as int) - ('0' as int)) as nat
    }
}

/// Reading the decimal notation of a number gives the number back.
pub proof fn lemma_decimal_value(n: nat)
    ensures
        decimal_value(decimal(n)) == n,
        decimal(n).len() > 0,
    decreases n,
{
    if n < 10 {
        assert(decimal(n).drop_last() =~= Seq::<char>::empty());
        assert(decimal_value(Seq::<char>::empty()) == 0);
    } else {
        lemma_decimal_value(n / 10);
        assert(decimal(n).drop_last() =~= decimal(n / 10));
    }
}

/// The line that reports `message` about `line`: `[line N] Error C: M`.
pub open spec fn line_text(line: nat, context: Seq<char>, message: Seq<char>) -> Seq<char> {
    "[line "@ + decimal(line) + "] Error "@ + context + ": "@ + message
}

/// The reports made so far, oldest first, each a finished line of text.
pub struct Diagnostics {
    pub lines: Vec<String>,
}

impl View for Diagnostics {
    type V = Seq<Seq<char>>;

    open spec fn view(&self) -> Seq<Seq<char>> {
        self.lines.deep_view()
    }
}

impl Diagnostics {
    /// No reports.
    pub fn new() -> (sink: Diagnostics)
        ensures
            sink@ == Seq::<Seq<char>>::empty(),
    {
        let sink = Diagnostics { lines: Vec::new() };
        assert(sink@ =~= Seq::<Seq<char>>::empty());
        sink
    }
}

fn digit_text(d: usize) -> (text: &'static str)
    requires
        d < 10,
    ensures
        text@ == seq![digit_char(d as nat)],
{
    proof {
        reveal_strlit("0");
        reveal_strlit("1");
        reveal_strlit("2");
        reveal_strlit("3");
        reveal_strlit("4");
        reveal_strlit("5");
        reveal_strlit("6");
        reveal_strlit("7");
        reveal_strlit("8");
        reveal_strlit("9");
    }
    let text = if d == 0 {
        "0"
    } else if d == 1 {
        "1"
    } else if d == 2 {
        "2"
    } else if d == 3 {
        "3"
    } else if d == 4 {
        "4"
    } else if d == 5 {
        "5"
    } else if d == 6 {
        "6"
    } else if d == 7 {
        "7"
    } else if d == 8 {
        "8"
    } else {
        "9"
    };
    assert(text@ =~= seq![digit_char(d as nat)]);
    text
}

/// Writes `n` in decimal notation.
pub fn decimal_text(n: usize) -> (text: String)
    ensures
        text@ == decimal(n as nat),
    decreases n,
{
    if n < 10 {
        String::from_str(digit_text(n))
    } else {
        let mut text = decimal_text(n / 10);
        text.append(digit_text(n % 10));
        assert(text@ =~= decimal(n as nat));
        text
    }
}

/// Reports `msg` about `line`, with no context.
pub fn error(sink: &mut Diagnostics, line: usize, msg: &str)
    ensures
        final(sink)@ == old(sink)@.push(line_text(line as nat, Seq::<char>::empty(), msg@)),
{
    proof {
        reveal_strlit("");
    }
    assert(""@ =~= Seq::<char>::empty());
    report(sink, line, "", msg)
}

/// Appends the line `[line {line}] Error {error}: {reason}` to the reports.
pub fn report(sink: &mut Diagnostics, line: usize, error: &str, reason: &str)
    ensures
        final(sink)@ == old(sink)@.push(line_text(line as nat, error@, reason@)),
{
    let mut text = String::from_str("[line ");
    text.append(decimal_text(line).as_str());
    text.append("] Error ");
    text.append(error);
    text.append(": ");
    text.append(reason);
    sink.lines.push(text);
    assert(sink@ =~= old(sink)@.push(line_text(line as nat, error@, reason@)));
}

/// An expression. A node owns its operator token and shares its children;
/// nothing changes a node once it is built.
#[derive(Debug)]
pub enum Expr {
    /// A string, number or boolean constant.
    Literal(TokenLiteral),
    /// `-x` or `!x`.
    Unary(Token, Rc<Expr>),
    /// `left operator right`.
    Binary(Rc<Expr>, Token, Rc<Expr>),
    /// `(x)`, kept as a node of its own.
    Grouping(Rc<Expr>),
    /// `condition ? then : else`.
    Conditional(Rc<Expr>, Rc<Expr>, Rc<Expr>),
}

impl Expr {
    /// Hands the expression to a visitor and returns what the visitor made
    /// of it.
    pub fn visit<V, R>(&self, v: &V) -> (r: R) where R: Sized, V: Visitor<R>
        ensures
            call_ensures(V::visit, (v, self), r),
    {
        v.visit(self)
    }
}

/// Why a source came to nothing.
#[derive(Debug, PartialEq, Eq, Clone, Copy, Structural)]
pub enum CompilationError {
    /// The source holds no expression that parses.
    UndefinedError,
}

/// Whether a source came to something.
pub type CompilerResult = Result<(), CompilationError>;

/// The tokens of a source are what the parser asks for and what the
/// lemmas of the grammar ask for: they end with the end of the input, which
/// stands nowhere else, and each carries what its kind asks for.
pub proof fn lemma_scanned_tokens(source: Seq<char>, tokens: Seq<Token>)
    requires
        views(tokens) == lex(source).tokens,
    ensures
        tokens.len() > 0,
        tokens.last()@.kind == TokenType::Eof,
        forall|i: int| 0 <= i < tokens.len() - 1 ==> (#[trigger] tokens[i])@.kind != TokenType::Eof,
        literals_match_kinds(tokens),
{
    lemma_ends_with_eof(source, 0);
    lemma_tokens_carry_their_kinds(source, 0);
    let scanned = lex(source).tokens;
    assert(views(tokens).len() == tokens.len());
    assert(views(tokens).last() == tokens.last()@);
    assert forall|i: int| 0 <= i < tokens.len() - 1 implies (#[trigger] tokens[i])@.kind
        != TokenType::Eof by {
        assert(views(tokens)[i] == tokens[i]@);
    }
    assert forall|i: int| 0 <= i < tokens.len() implies #[trigger] literal_matches_kind(
        tokens[i],
    ) by {
        assert(views(tokens)[i] == tokens[i]@);
        assert(carries_its_kind(scanned[i]));
        tokens[i].lemma_literal_view();
    }
}

/// What holds of the expression of every source: it has the shape that
/// precedence and associativity ask for, and it is written with exactly
/// the tokens that the parse has taken from the beginning of the source.
pub proof fn lemma_parsed_source(source: Seq<char>, tokens: Seq<Token>)
    requires
        views(tokens) == lex(source).tokens,
    ensures
        expression(tokens, 0).expr matches Some(e) ==> {
            &&& fits(*e, Rule::Comma)
            &&& written_with(*e) == kinds_of(tokens).subrange(
                0,
                expression(tokens, 0).consumed as int,
            )
            &&& 1 <= expression(tokens, 0).consumed < tokens.len()
        },
{
    lemma_scanned_tokens(source, tokens);
    lemma_expression(tokens, 0);
    lemma_faithful(tokens, 0);
    lemma_stops_before_end(tokens, 0);
}

/// Scans `source` and parses one expression at its beginning. What the
/// scanner and then the parser have to report goes to `sink`.
pub fn parse_source(source: String, sink: &mut Diagnostics) -> (r: Option<Rc<Expr>>)
    requires
        source@.len() < usize::MAX,
    ensures
        exists|tokens: Seq<Token>|
            {
                &&& #[trigger] views(tokens) == lex(source@).tokens
                &&& final(sink)@ == old(sink)@ + lex(source@).reports + reports(
                    expression(tokens, 0).errors,
                )
                &&& r == expression(tokens, 0).expr
            },
{
    let ghost s = source@;
    let mut scanner = Scanner::new(source);
    let scanned = scanner.scan_tokens(sink);
    let mut tokens: Vec<Token> = Vec::new();
    let mut i: usize = 0;
    while i < scanned.len()
        invariant
            i <= scanned.len(),
            tokens@ == scanned@.take(i as int),
        decreases scanned.len() - i,
    {
        tokens.push(scanned[i].clone());
        i += 1;
        assert(tokens@ =~= scanned@.take(i as int));
    }
    proof {
        assert(scanned@.take(scanned.len() as int) =~= scanned@);
        assert(lex(s).tokens =~= Seq::<TokenView>::empty() + lex(s).tokens);
        assert(views(tokens@) =~= scanned.deep_view());
        lemma_ends_with_eof(s, 0);
        assert(views(tokens@).last() == tokens@.last()@);
    }
    let mut parser = Parser::new(tokens);
    parser.parse(sink)
}

/// Scans `source`, parses one expression at its beginning and writes the
/// expression in prefix notation. What the scanner and then the parser
/// have to report goes to `sink`; where the parser finds no expression
/// there is no text.
pub fn try_run(source: String, sink: &mut Diagnostics) -> (r: Result<String, CompilationError>)
    requires
        source@.len() < usize::MAX,
    ensures
        exists|tokens: Seq<Token>|
            {
                &&& #[trigger] views(tokens) == lex(source@).tokens
                &&& final(sink)@ == old(sink)@ + lex(source@).reports + reports(
                    expression(tokens, 0).errors,
                )
                &&& match r {
                    Ok(text) => expression(tokens, 0).expr matches Some(e) && text@ == rendered(
                        *e,
                    ),
                    Err(error) => expression(tokens, 0).expr is None && error
                        == CompilationError::UndefinedError,
                }
            },
{
    let expression = parse_source(source, sink);
    match expression {
        None => Err(CompilationError::UndefinedError),
        Some(expr) => {
            let printer = AstPrinter {  };
            Ok(printer.print(&expr))
        },
    }
}

} // verus!

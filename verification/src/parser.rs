//! The parser: a cursor over a token sequence that computes what the
//! grammar says.

use vstd::prelude::*;
use std::rc::Rc;
use crate::error::ParseError;
use crate::grammar::{
    binary, binary_tail, can_take, comma, comma_tail, expected_colon, expected_expression,
    expected_left_operand, expected_right_paren, expression, is_at, left, operand, operator_at,
    primary, report_of, reports, ternary, unary, Failure, Level, Parsed,
};
use crate::token::{Token, TokenLiteral, TokenType};
use crate::{Diagnostics, Expr};

verus! {

/// Whether `kind` is one of `kinds`.
pub open spec fn among(kind: TokenType, kinds: Seq<TokenType>) -> bool {
    exists|i: int| 0 <= i < kinds.len() && kinds[i] == kind
}

/// What `among` comes to for the short lists that the rules use.
pub proof fn lemma_among(kind: TokenType, kinds: Seq<TokenType>)
    ensures
        kinds.len() == 1 ==> (among(kind, kinds) <==> kind == kinds[0]),
        kinds.len() == 2 ==> (among(kind, kinds) <==> kind == kinds[0] || kind == kinds[1]),
        kinds.len() == 4 ==> (among(kind, kinds) <==> kind == kinds[0] || kind == kinds[1] || kind
            == kinds[2] || kind == kinds[3]),
{
}

/// Reporting one more violation adds its line.
pub proof fn lemma_reports_push(errors: Seq<Failure>, failure: Failure)
    ensures
        reports(errors.push(failure)) == reports(errors).push(report_of(failure)),
{
    assert(reports(errors.push(failure)) =~= reports(errors).push(report_of(failure)));
}

/// What the sink holds once a parse's violations and then one more have
/// been reported.
pub proof fn lemma_reported_then(reported: Seq<Seq<char>>, errors: Seq<Failure>, failure: Failure)
    ensures
        (reported + reports(errors)).push(report_of(failure)) == reported + reports(
            errors.push(failure),
        ),
{
    lemma_reports_push(errors, failure);
    assert((reported + reports(errors)).push(report_of(failure)) =~= reported + reports(
        errors,
    ).push(report_of(failure)));
}

/// Where there are no violations, nothing is reported.
pub proof fn lemma_quiet(reported: Seq<Seq<char>>)
    ensures
        forall|errors: Seq<Failure>|
            errors.len() == 0 ==> reported + #[trigger] reports(errors) == reported,
{
    assert forall|errors: Seq<Failure>| errors.len() == 0 implies reported + #[trigger] reports(
        errors,
    ) == reported by {
        assert(reported + reports(errors) =~= reported);
    }
}

/// What a grammar rule returns.
pub type ParseResult = Result<Rc<Expr>, ParseError>;

/// A token sequence and a cursor into it.
pub struct Parser {
    tokens: Vec<Token>,
    current: usize,
}

/// Whether a run of a rule went as `parsed` says: the cursor has moved by
/// the tokens taken, the violations have been reported in order, and the
/// rule has returned the expression, or else the violation reported last.
pub open spec fn went(
    before: Parser,
    after: Parser,
    reported_before: Seq<Seq<char>>,
    reported_after: Seq<Seq<char>>,
    result: ParseResult,
    parsed: Parsed,
) -> bool {
    &&& after.tokens() == before.tokens()
    &&& after.position() == before.position() + parsed.consumed
    &&& reported_after == reported_before + reports(parsed.errors)
    &&& match result {
        Ok(expr) => parsed.expr == Some(expr) && parsed.errors.len() == 0,
        Err(error) => {
            &&& parsed.expr is None
            &&& parsed.errors.len() > 0
            &&& error.spec_token() == parsed.errors.last().token
            &&& error.message() == parsed.errors.last().message
        },
    }
}

/// The kinds of token that begin a statement.
pub open spec fn starts_statement(kind: TokenType) -> bool {
    kind == TokenType::Return || kind == TokenType::Class || kind == TokenType::Fun || kind
        == TokenType::Var || kind == TokenType::For || kind == TokenType::If || kind
        == TokenType::While || kind == TokenType::Print
}

/// Whether parsing can resume at `pos` after a violation: the input ends
/// there, or a `;` stands just before, or a statement begins.
pub open spec fn is_boundary(ts: Seq<Token>, pos: int) -> bool {
    ||| !can_take(ts, pos)
    ||| (pos > 0 && ts[pos - 1]@.kind == TokenType::Semicolon)
    ||| starts_statement(ts[pos]@.kind)
}

impl Parser {
    /// There is a token at the cursor, and the sequence ends with `Eof`.
    #[verifier::type_invariant]
    spec fn wf(self) -> bool {
        &&& self.tokens.len() > 0
        &&& self.tokens@.last()@.kind == TokenType::Eof
        &&& self.current < self.tokens.len()
    }

    /// The tokens.
    pub closed spec fn tokens(&self) -> Seq<Token> {
        self.tokens@
    }

    /// The index of the token at the cursor.
    pub closed spec fn position(&self) -> int {
        self.current as int
    }

    /// A parser at the beginning of `tokens`, which end with `Eof` as the
    /// scanner's do.
    pub fn new(tokens: Vec<Token>) -> (parser: Parser)
        requires
            tokens@.len() > 0,
            tokens@.last()@.kind == TokenType::Eof,
        ensures
            parser.tokens() == tokens@,
            parser.position() == 0,
    {
        Self { tokens, current: 0 }
    }

    /// The index of the token at the cursor.
    pub fn current(&self) -> (current: usize)
        ensures
            current == self.position(),
            current < self.tokens().len(),
    {
        proof {
            use_type_invariant(self);
        }
        self.current
    }

    /// Parses one expression at the cursor. There is no expression where
    /// the grammar is violated; the violations are then in `sink`.
    pub fn parse(&mut self, sink: &mut Diagnostics) -> (expr: Option<Rc<Expr>>)
        ensures
            final(self).tokens() == old(self).tokens(),
            expr == expression(old(self).tokens(), old(self).position()).expr,
            final(self).position() == old(self).position() + expression(
                old(self).tokens(),
                old(self).position(),
            ).consumed,
            final(sink)@ == old(sink)@ + reports(
                expression(old(self).tokens(), old(self).position()).errors,
            ),
    {
        match self.expression(sink) {
            Ok(expr) => Some(expr),
            Err(_) => None,
        }
    }

    fn expression(&mut self, sink: &mut Diagnostics) -> (r: ParseResult)
        ensures
            went(
                *old(self),
                *final(self),
                old(sink)@,
                final(sink)@,
                r,
                expression(old(self).tokens@, old(self).current as int),
            ),
        decreases left(old(self).tokens@, old(self).current as int), 12nat,
    {
        self.comma_expression(sink)
    }

    #[verifier::rlimit(40)]
    fn comma_expression(&mut self, sink: &mut Diagnostics) -> (r: ParseResult)
        ensures
            went(
                *old(self),
                *final(self),
                old(sink)@,
                final(sink)@,
                r,
                comma(old(self).tokens@, old(self).current as int),
            ),
        decreases left(old(self).tokens@, old(self).current as int), 11nat,
    {
        let ghost ts = self.tokens@;
        let ghost start = self.current as int;
        let ghost reported = sink@;
        proof {
            use_type_invariant(&*self);
            lemma_quiet(reported);
        }
        let mut expr = match self.ternary(sink) {
            Err(e) => {
                return Err(e);
            },
            Ok(e) => e,
        };
        proof {
            use_type_invariant(&*self);
        }
        let kinds = [TokenType::Comma];
        loop
            invariant
                self.tokens@ == ts,
                old(self).tokens@ == ts,
                old(self).current == start,
                sink@ == reported,
                old(sink)@ == reported,
                kinds@.len() == 1,
                kinds@[0] == TokenType::Comma,
                start <= self.current < ts.len(),
                comma(ts, start) == comma_tail(ts, self.current as int, expr).after(
                    (self.current - start) as nat,
                ),
            ensures
                went(*old(self), *self, reported, sink@, Ok::<Rc<Expr>, ParseError>(expr), comma(ts, start)),
            decreases left(ts, self.current as int),
        {
            let ghost at = self.current as int;
            proof {
                lemma_among(ts[at]@.kind, kinds@);
                lemma_quiet(reported);
            }
            if !self.match_token(&kinds) {
                break ;
            }
            let token = self.previous();
            match self.equality(sink) {
                Err(e) => {
                    return Err(e);
                },
                Ok(right) => {
                    expr = Rc::new(Expr::Binary(expr, token, right));
                },
            }
            proof {
                use_type_invariant(&*self);
            }
        }
        Ok(expr)
    }

    #[verifier::rlimit(60)]
    fn ternary(&mut self, sink: &mut Diagnostics) -> (r: ParseResult)
        ensures
            went(
                *old(self),
                *final(self),
                old(sink)@,
                final(sink)@,
                r,
                ternary(old(self).tokens@, old(self).current as int),
            ),
        decreases left(old(self).tokens@, old(self).current as int), 10nat,
    {
        let ghost ts = self.tokens@;
        let ghost start = self.current as int;
        let ghost reported = sink@;
        proof {
            use_type_invariant(&*self);
            lemma_quiet(reported);
        }
        let expr = match self.equality(sink) {
            Err(e) => {
                return Err(e);
            },
            Ok(e) => e,
        };
        let question = [TokenType::QuestionMark];
        let colon = [TokenType::Colon];
        proof {
            use_type_invariant(&*self);
            lemma_among(ts[self.current as int]@.kind, question@);
        }
        if self.match_token(&question) {
            let then_ex = match self.equality(sink) {
                Err(e) => {
                    return Err(e);
                },
                Ok(e) => e,
            };
            proof {
                use_type_invariant(&*self);
                lemma_among(ts[self.current as int]@.kind, colon@);
            }
            if self.match_token(&colon) {
                let else_ex = match self.equality(sink) {
                    Err(e) => {
                        return Err(e);
                    },
                    Ok(e) => e,
                };
                return Ok(Rc::new(Expr::Conditional(expr, then_ex, else_ex)));
            }
            proof {
                lemma_reports_push(
                    Seq::empty(),
                    Failure { token: ts[self.current - 1], message: expected_colon() },
                );
                assert(reports(Seq::<Failure>::empty()) =~= Seq::<Seq<char>>::empty());
            }
            return Self::error(
                sink,
                ParseError::Generic(Rc::new(self.previous()), "Expected ':'.".to_owned()),
            );
        }
        Ok(expr)
    }

    #[verifier::rlimit(40)]
    fn equality(&mut self, sink: &mut Diagnostics) -> (r: ParseResult)
        ensures
            went(
                *old(self),
                *final(self),
                old(sink)@,
                final(sink)@,
                r,
                binary(old(self).tokens@, old(self).current as int, Level::Equality),
            ),
        decreases left(old(self).tokens@, old(self).current as int), 9nat,
    {
        let ghost level = Level::Equality;
        let ghost ts = self.tokens@;
        let ghost start = self.current as int;
        let ghost reported = sink@;
        proof {
            use_type_invariant(&*self);
            lemma_quiet(reported);
        }
        let mut expr = match self.comparison(sink) {
            Err(e) => {
                return Err(e);
            },
            Ok(e) => e,
        };
        proof {
            use_type_invariant(&*self);
        }
        let kinds = [TokenType::EqualEqual, TokenType::BangEqual];
        loop
            invariant
                self.tokens@ == ts,
                old(self).tokens@ == ts,
                old(self).current == start,
                sink@ == reported,
                old(sink)@ == reported,
                level == Level::Equality,
                kinds@.len() == 2,
                kinds@[0] == TokenType::EqualEqual,
                kinds@[1] == TokenType::BangEqual,
                start <= self.current < ts.len(),
                binary(ts, start, level) == binary_tail(ts, self.current as int, expr, level).after(
                    (self.current - start) as nat,
                ),
            ensures
                went(*old(self), *self, reported, sink@, Ok::<Rc<Expr>, ParseError>(expr), binary(ts, start, level)),
            decreases left(ts, self.current as int),
        {
            let ghost at = self.current as int;
            let ghost before = expr;
            proof {
                lemma_among(ts[self.current as int]@.kind, kinds@);
                lemma_quiet(reported);
            }
            if !self.match_token(&kinds) {
                break ;
            }
            assert(operator_at(ts, at, level));
            assert(operand(ts, at + 1, level) == binary(ts, at + 1, Level::Comparison));
            let prev_token = self.previous();
            match self.comparison(sink) {
                Err(e) => {
                    assert(binary_tail(ts, at, before, level) == binary(ts, at + 1, Level::Comparison).after(1));
                    return Err(e);
                },
                Ok(right) => {
                    expr = Rc::new(Expr::Binary(expr, prev_token, right));
                },
            }
            proof {
                use_type_invariant(&*self);
            }
        }
        Ok(expr)
    }

    #[verifier::rlimit(40)]
    fn comparison(&mut self, sink: &mut Diagnostics) -> (r: ParseResult)
        ensures
            went(
                *old(self),
                *final(self),
                old(sink)@,
                final(sink)@,
                r,
                binary(old(self).tokens@, old(self).current as int, Level::Comparison),
            ),
        decreases left(old(self).tokens@, old(self).current as int), 7nat,
    {
        let ghost level = Level::Comparison;
        let ghost ts = self.tokens@;
        let ghost start = self.current as int;
        let ghost reported = sink@;
        proof {
            use_type_invariant(&*self);
            lemma_quiet(reported);
        }
        let mut expr = match self.term(sink) {
            Err(e) => {
                return Err(e);
            },
            Ok(e) => e,
        };
        proof {
            use_type_invariant(&*self);
        }
        let kinds = [
            TokenType::Greater,
            TokenType::GreaterEqual,
            TokenType::Less,
            TokenType::LessEqual,
        ];
        loop
            invariant
                self.tokens@ == ts,
                old(self).tokens@ == ts,
                old(self).current == start,
                sink@ == reported,
                old(sink)@ == reported,
                level == Level::Comparison,
                kinds@.len() == 4,
                kinds@[0] == TokenType::Greater,
                kinds@[1] == TokenType::GreaterEqual,
                kinds@[2] == TokenType::Less,
                kinds@[3] == TokenType::LessEqual,
                start <= self.current < ts.len(),
                binary(ts, start, level) == binary_tail(ts, self.current as int, expr, level).after(
                    (self.current - start) as nat,
                ),
            ensures
                went(*old(self), *self, reported, sink@, Ok::<Rc<Expr>, ParseError>(expr), binary(ts, start, level)),
            decreases left(ts, self.current as int),
        {
            let ghost at = self.current as int;
            let ghost before = expr;
            proof {
                lemma_among(ts[self.current as int]@.kind, kinds@);
                lemma_quiet(reported);
            }
            if !self.match_token(&kinds) {
                break ;
            }
            assert(operator_at(ts, at, level));
            assert(operand(ts, at + 1, level) == binary(ts, at + 1, Level::Term));
            let prev_token = self.previous();
            match self.term(sink) {
                Err(e) => {
                    assert(binary_tail(ts, at, before, level) == binary(ts, at + 1, Level::Term).after(1));
                    return Err(e);
                },
                Ok(right) => {
                    expr = Rc::new(Expr::Binary(expr, prev_token, right));
                },
            }
            proof {
                use_type_invariant(&*self);
            }
        }
        Ok(expr)
    }

    #[verifier::rlimit(40)]
    fn term(&mut self, sink: &mut Diagnostics) -> (r: ParseResult)
        ensures
            went(
                *old(self),
                *final(self),
                old(sink)@,
                final(sink)@,
                r,
                binary(old(self).tokens@, old(self).current as int, Level::Term),
            ),
        decreases left(old(self).tokens@, old(self).current as int), 5nat,
    {
        let ghost level = Level::Term;
        let ghost ts = self.tokens@;
        let ghost start = self.current as int;
        let ghost reported = sink@;
        proof {
            use_type_invariant(&*self);
            lemma_quiet(reported);
        }
        let mut expr = match self.factor(sink) {
            Err(e) => {
                return Err(e);
            },
            Ok(e) => e,
        };
        proof {
            use_type_invariant(&*self);
        }
        let kinds = [TokenType::Plus, TokenType::Minus];
        loop
            invariant
                self.tokens@ == ts,
                old(self).tokens@ == ts,
                old(self).current == start,
                sink@ == reported,
                old(sink)@ == reported,
                level == Level::Term,
                kinds@.len() == 2,
                kinds@[0] == TokenType::Plus,
                kinds@[1] == TokenType::Minus,
                start <= self.current < ts.len(),
                binary(ts, start, level) == binary_tail(ts, self.current as int, expr, level).after(
                    (self.current - start) as nat,
                ),
            ensures
                went(*old(self), *self, reported, sink@, Ok::<Rc<Expr>, ParseError>(expr), binary(ts, start, level)),
            decreases left(ts, self.current as int),
        {
            let ghost at = self.current as int;
            let ghost before = expr;
            proof {
                lemma_among(ts[self.current as int]@.kind, kinds@);
                lemma_quiet(reported);
            }
            if !self.match_token(&kinds) {
                break ;
            }
            assert(operator_at(ts, at, level));
            assert(operand(ts, at + 1, level) == binary(ts, at + 1, Level::Factor));
            let prev_token = self.previous();
            match self.factor(sink) {
                Err(e) => {
                    assert(binary_tail(ts, at, before, level) == binary(ts, at + 1, Level::Factor).after(1));
                    return Err(e);
                },
                Ok(right) => {
                    expr = Rc::new(Expr::Binary(expr, prev_token, right));
                },
            }
            proof {
                use_type_invariant(&*self);
            }
        }
        Ok(expr)
    }

    #[verifier::rlimit(40)]
    fn factor(&mut self, sink: &mut Diagnostics) -> (r: ParseResult)
        ensures
            went(
                *old(self),
                *final(self),
                old(sink)@,
                final(sink)@,
                r,
                binary(old(self).tokens@, old(self).current as int, Level::Factor),
            ),
        decreases left(old(self).tokens@, old(self).current as int), 3nat,
    {
        let ghost level = Level::Factor;
        let ghost ts = self.tokens@;
        let ghost start = self.current as int;
        let ghost reported = sink@;
        proof {
            use_type_invariant(&*self);
            lemma_quiet(reported);
        }
        let mut expr = match self.unary(sink) {
            Err(e) => {
                return Err(e);
            },
            Ok(e) => e,
        };
        proof {
            use_type_invariant(&*self);
        }
        let kinds = [TokenType::Star, TokenType::Slash];
        loop
            invariant
                self.tokens@ == ts,
                old(self).tokens@ == ts,
                old(self).current == start,
                sink@ == reported,
                old(sink)@ == reported,
                level == Level::Factor,
                kinds@.len() == 2,
                kinds@[0] == TokenType::Star,
                kinds@[1] == TokenType::Slash,
                start <= self.current < ts.len(),
                binary(ts, start, level) == binary_tail(ts, self.current as int, expr, level).after(
                    (self.current - start) as nat,
                ),
            ensures
                went(*old(self), *self, reported, sink@, Ok::<Rc<Expr>, ParseError>(expr), binary(ts, start, level)),
            decreases left(ts, self.current as int),
        {
            let ghost at = self.current as int;
            let ghost before = expr;
            proof {
                lemma_among(ts[self.current as int]@.kind, kinds@);
                lemma_quiet(reported);
            }
            if !self.match_token(&kinds) {
                break ;
            }
            assert(operator_at(ts, at, level));
            assert(operand(ts, at + 1, level) == unary(ts, at + 1));
            let prev_token = self.previous();
            match self.unary(sink) {
                Err(e) => {
                    assert(binary_tail(ts, at, before, level) == unary(ts, at + 1).after(1));
                    return Err(e);
                },
                Ok(right) => {
                    expr = Rc::new(Expr::Binary(expr, prev_token, right));
                },
            }
            proof {
                use_type_invariant(&*self);
            }
        }
        Ok(expr)
    }

    fn unary(&mut self, sink: &mut Diagnostics) -> (r: ParseResult)
        ensures
            went(
                *old(self),
                *final(self),
                old(sink)@,
                final(sink)@,
                r,
                unary(old(self).tokens@, old(self).current as int),
            ),
        decreases left(old(self).tokens@, old(self).current as int), 1nat,
    {
        let ghost ts = self.tokens@;
        let ghost reported = sink@;
        let kinds = [TokenType::Bang, TokenType::Minus];
        proof {
            use_type_invariant(&*self);
            lemma_quiet(reported);
            lemma_among(ts[self.current as int]@.kind, kinds@);
        }
        if self.match_token(&kinds) {
            let previous = self.previous();
            return match self.unary(sink) {
                Err(e) => Err(e),
                Ok(operand) => Ok(Rc::new(Expr::Unary(previous, operand))),
            };
        }
        self.primary(sink)
    }

    #[verifier::rlimit(60)]
    fn primary(&mut self, sink: &mut Diagnostics) -> (r: ParseResult)
        ensures
            went(
                *old(self),
                *final(self),
                old(sink)@,
                final(sink)@,
                r,
                primary(old(self).tokens@, old(self).current as int),
            ),
        decreases left(old(self).tokens@, old(self).current as int), 0nat,
    {
        let ghost ts = self.tokens@;
        let ghost pos = self.current as int;
        let ghost kind = ts[pos]@.kind;
        let ghost reported = sink@;
        proof {
            use_type_invariant(&*self);
            lemma_quiet(reported);
            assert(reports(Seq::<Failure>::empty()) =~= Seq::<Seq<char>>::empty());
        }
        let kinds = [TokenType::False];
        proof {
            lemma_among(kind, kinds@);
        }
        if self.match_token(&kinds) {
            return Ok(Rc::new(Expr::Literal(TokenLiteral::Bool(false))));
        }
        let kinds = [TokenType::True];
        proof {
            lemma_among(kind, kinds@);
        }
        if self.match_token(&kinds) {
            return Ok(Rc::new(Expr::Literal(TokenLiteral::Bool(true))));
        }
        let kinds = [TokenType::Number];
        proof {
            lemma_among(kind, kinds@);
        }
        if self.match_token(&kinds) {
            let previous = self.previous();
            return Ok(Rc::new(Expr::Literal(previous.literal().clone())));
        }
        let kinds = [TokenType::String];
        proof {
            lemma_among(kind, kinds@);
        }
        if self.match_token(&kinds) {
            let previous = self.previous();
            return Ok(Rc::new(Expr::Literal(previous.literal().clone())));
        }
        let kinds = [TokenType::LeftParen];
        proof {
            lemma_among(kind, kinds@);
        }
        if self.match_token(&kinds) {
            return self.grouping(sink);
        }
        let kinds = [TokenType::BangEqual, TokenType::EqualEqual];
        proof {
            lemma_among(kind, kinds@);
        }
        if self.match_token(&kinds) {
            let prev = self.previous();
            let _ = self.equality(sink);
            proof {
                lemma_reported_then(
                    reported,
                    binary(ts, pos + 1, Level::Equality).errors,
                    Failure { token: ts[pos], message: expected_left_operand() },
                );
            }
            return Self::left_operand_missing(sink, prev);
        }
        let kinds = [
            TokenType::Less,
            TokenType::LessEqual,
            TokenType::Greater,
            TokenType::GreaterEqual,
        ];
        proof {
            lemma_among(kind, kinds@);
        }
        if self.match_token(&kinds) {
            let prev = self.previous();
            let _ = self.comparison(sink);
            proof {
                lemma_reported_then(
                    reported,
                    binary(ts, pos + 1, Level::Comparison).errors,
                    Failure { token: ts[pos], message: expected_left_operand() },
                );
            }
            return Self::left_operand_missing(sink, prev);
        }
        let kinds = [TokenType::Plus];
        proof {
            lemma_among(kind, kinds@);
        }
        if self.match_token(&kinds) {
            let prev = self.previous();
            let _ = self.term(sink);
            proof {
                lemma_reported_then(
                    reported,
                    binary(ts, pos + 1, Level::Term).errors,
                    Failure { token: ts[pos], message: expected_left_operand() },
                );
            }
            return Self::left_operand_missing(sink, prev);
        }
        let kinds = [TokenType::Slash, TokenType::Star];
        proof {
            lemma_among(kind, kinds@);
        }
        if self.match_token(&kinds) {
            let prev = self.previous();
            let _ = self.factor(sink);
            proof {
                lemma_reported_then(
                    reported,
                    binary(ts, pos + 1, Level::Factor).errors,
                    Failure { token: ts[pos], message: expected_left_operand() },
                );
            }
            return Self::left_operand_missing(sink, prev);
        }
        proof {
            lemma_reported_then(
                reported,
                Seq::empty(),
                Failure { token: ts[pos], message: expected_expression() },
            );
        }
        Self::error(
            sink,
            ParseError::Generic(Rc::new(self.peek().clone()), "Expected expression.".to_owned()),
        )
    }

    /// The rest of a parenthesised expression, whose `(` has just been
    /// taken.
    #[verifier::rlimit(60)]
    fn grouping(&mut self, sink: &mut Diagnostics) -> (r: ParseResult)
        requires
            old(self).current >= 1,
            is_at(old(self).tokens@, old(self).current - 1, TokenType::LeftParen),
        ensures
            went(
                *old(self),
                *final(self),
                old(sink)@,
                final(sink)@,
                r,
                Parsed {
                    consumed: (primary(old(self).tokens@, old(self).current - 1).consumed
                        - 1) as nat,
                    ..primary(old(self).tokens@, old(self).current - 1)
                },
            ),
            primary(old(self).tokens@, old(self).current - 1).consumed >= 1,
        decreases left(old(self).tokens@, old(self).current - 1), 0nat, 0nat,
    {
        let ghost ts = self.tokens@;
        let ghost reported = sink@;
        proof {
            use_type_invariant(&*self);
            lemma_quiet(reported);
            assert(reports(Seq::<Failure>::empty()) =~= Seq::<Seq<char>>::empty());
        }
        let expr = match self.expression(sink) {
            Err(e) => {
                return Err(e);
            },
            Ok(e) => e,
        };
        let kinds = [TokenType::RightParen];
        proof {
            use_type_invariant(&*self);
            lemma_among(ts[self.current as int]@.kind, kinds@);
        }
        if self.match_token(&kinds) {
            return Ok(Rc::new(Expr::Grouping(expr)));
        }
        proof {
            lemma_reports_push(
                Seq::empty(),
                Failure { token: ts[self.current - 1], message: expected_right_paren() },
            );
        }
        Self::error(
            sink,
            ParseError::Generic(
                Rc::new(self.previous()),
                "Expected ')' after expression.".to_owned(),
            ),
        )
    }

    /// Reports that the operator `operator` has nothing to its left.
    fn left_operand_missing(sink: &mut Diagnostics, operator: Token) -> (r: ParseResult)
        ensures
            r is Err,
            r->Err_0.spec_token() == operator,
            r->Err_0.message() == expected_left_operand(),
            final(sink)@ == old(sink)@.push(
                report_of(Failure { token: operator, message: expected_left_operand() }),
            ),
    {
        Self::error(
            sink,
            ParseError::Generic(Rc::new(operator), "Expected left hand operand".to_owned()),
        )
    }

    /// Reports a violation and returns it as a failure.
    fn error(sink: &mut Diagnostics, error: ParseError) -> (r: ParseResult)
        ensures
            r == Err::<Rc<Expr>, ParseError>(error),
            final(sink)@ == old(sink)@.push(
                report_of(Failure { token: error.spec_token(), message: error.message() }),
            ),
    {
        let token = error.token();
        crate::error(sink, token.line(), error.to_string().as_str());
        Err(error)
    }

    /// The token just before the cursor.
    fn previous(&self) -> (token: Token)
        requires
            self.current >= 1,
        ensures
            token == self.tokens@[self.current - 1],
    {
        proof {
            use_type_invariant(self);
        }
        self.tokens[self.current - 1].clone()
    }

    /// Takes the token at the cursor if it is of one of the kinds `types`.
    fn match_token(&mut self, types: &[TokenType]) -> (taken: bool)
        ensures
            final(self).tokens@ == old(self).tokens@,
            taken == (can_take(old(self).tokens@, old(self).current as int) && among(
                old(self).tokens@[old(self).current as int]@.kind,
                types@,
            )),
            final(self).current == old(self).current + (if taken {
                1int
            } else {
                0int
            }),
    {
        if self.finished() {
            return false;
        }
        let mut i: usize = 0;
        while i < types.len()
            invariant
                i <= types.len(),
                *self == *old(self),
                can_take(self.tokens@, self.current as int),
                forall|j: int| 0 <= j < i ==> types@[j] != self.tokens@[self.current as int]@.kind,
            decreases types.len() - i,
        {
            let curr = self.peek();
            if *curr.token_type() == types[i] {
                self.advance();
                return true;
            }
            i += 1;
        }
        false
    }

    /// Moves the cursor to where parsing can resume after a violation:
    /// behind the token at the cursor, and on to the first place where the
    /// input ends, a `;` has just passed, or a statement begins.
    pub fn synchronize(&mut self)
        ensures
            final(self).tokens() == old(self).tokens(),
            old(self).position() <= final(self).position() < old(self).tokens().len(),
            can_take(old(self).tokens(), old(self).position()) <==> final(self).position()
                > old(self).position(),
            is_boundary(final(self).tokens(), final(self).position()),
            forall|k: int|
                old(self).position() < k < final(self).position() ==> !is_boundary(
                    old(self).tokens(),
                    k,
                ),
    {
        let ghost ts = self.tokens@;
        let ghost pos = self.current as int;
        proof {
            use_type_invariant(&*self);
        }
        self.advance();
        proof {
            use_type_invariant(&*self);
        }
        while !self.finished()
            invariant
                self.tokens@ == ts,
                old(self).tokens@ == ts,
                old(self).current == pos,
                pos <= self.current < ts.len(),
                self.current == pos <==> !can_take(ts, pos),
                forall|k: int| pos < k < self.current ==> !is_boundary(ts, k),
            decreases left(ts, self.current as int),
        {
            if *self.previous().token_type() == TokenType::Semicolon {
                return ;
            }
            match self.peek().token_type() {
                TokenType::Return
                | TokenType::Class
                | TokenType::Fun
                | TokenType::Var
                | TokenType::For
                | TokenType::If
                | TokenType::While
                | TokenType::Print => return ,
                _ => {},
            }
            self.advance();
            proof {
                use_type_invariant(&*self);
            }
        }
    }

    /// Moves the cursor on by one token, unless it stands at the end of the
    /// input, and returns the token it then stands at.
    fn advance(&mut self) -> (token: &Token)
        ensures
            final(self).tokens@ == old(self).tokens@,
            final(self).current == old(self).current + (if can_take(
                old(self).tokens@,
                old(self).current as int,
            ) {
                1int
            } else {
                0int
            }),
            *token == final(self).tokens@[final(self).current as int],
    {
        proof {
            use_type_invariant(&*self);
        }
        if !self.finished() {
            self.current += 1
        }
        &self.tokens[self.current]
    }

    /// The token at the cursor.
    fn peek(&self) -> (token: &Token)
        ensures
            self.current < self.tokens@.len(),
            *token == self.tokens@[self.current as int],
    {
        proof {
            use_type_invariant(self);
        }
        &self.tokens[self.current]
    }

    /// Whether the cursor stands at the end of the input.
    fn finished(&self) -> (finished: bool)
        ensures
            finished == !can_take(self.tokens@, self.current as int),
    {
        proof {
            use_type_invariant(self);
        }
        *self.tokens[self.current].token_type() == TokenType::Eof
    }
}

} // verus!

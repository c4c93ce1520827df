//! The grammar of expressions, and what holds of every parse.
//!
//! From the loosest binding to the tightest:
//!
//! ```text
//! expression := comma
//! comma      := ternary ( "," equality )*
//! ternary    := equality ( "?" equality ":" equality )?
//! equality   := comparison ( ( "==" | "!=" ) comparison )*
//! comparison := term ( ( ">" | ">=" | "<" | "<=" ) term )*
//! term       := factor ( ( "+" | "-" ) factor )*
//! factor     := unary ( ( "*" | "/" ) unary )*
//! unary      := ( "!" | "-" ) unary | primary
//! primary    := "false" | "true" | NUMBER | STRING | "(" expression ")"
//! ```
//!
//! `expression`, `comma`, `ternary`, `binary`, `unary` and `primary` say
//! what parsing at a position of a token sequence gives: the expression or
//! the violations, and how many tokens it takes. The lemmas behind them
//! say what every parse has in common: its expression has the shape that
//! precedence and associativity ask for, it is written with exactly the
//! tokens taken, and a binary operator without a left operand is a
//! violation that still moves the cursor.

use vstd::prelude::*;
use std::rc::Rc;
use crate::token::{Token, TokenLiteral, TokenType};
use crate::{line_text, Expr};

verus! {

/// The four levels of left-associative binary operators.
#[derive(Debug, PartialEq, Eq, Clone, Copy, Structural)]
pub enum Level {
    Equality,
    Comparison,
    Term,
    Factor,
}

/// A grammar violation: the token it is reported at and the message.
pub struct Failure {
    pub token: Token,
    pub message: Seq<char>,
}

/// What parsing at a position gives.
pub struct Parsed {
    /// The expression, if there is one.
    pub expr: Option<Rc<Expr>>,
    /// The violations found, in the order in which they are reported. The
    /// last one is the one that made the parse fail.
    pub errors: Seq<Failure>,
    /// How many tokens the parse has taken, whether it succeeded or not.
    pub consumed: nat,
}

impl Parsed {
    /// The same outcome, reached after `n` more tokens.
    pub open spec fn after(self, n: nat) -> Parsed {
        Parsed { expr: self.expr, errors: self.errors, consumed: self.consumed + n }
    }
}

/// A parse that gives `expr` and takes `consumed` tokens.
pub open spec fn ok(expr: Expr, consumed: nat) -> Parsed {
    Parsed { expr: Some(Rc::new(expr)), errors: Seq::empty(), consumed }
}

/// A parse that fails at `token` with `message`, after `earlier` violations
/// and `consumed` tokens.
pub open spec fn fail(earlier: Seq<Failure>, token: Token, message: Seq<char>, consumed: nat) -> Parsed {
    Parsed { expr: None, errors: earlier.push(Failure { token, message }), consumed }
}

pub open spec fn expected_colon() -> Seq<char> {
    "Expected ':'."@
}

pub open spec fn expected_right_paren() -> Seq<char> {
    "Expected ')' after expression."@
}

pub open spec fn expected_left_operand() -> Seq<char> {
    "Expected left hand operand"@
}

pub open spec fn expected_expression() -> Seq<char> {
    "Expected expression."@
}

/// The line that reports a violation.
pub open spec fn report_of(failure: Failure) -> Seq<char> {
    line_text(failure.token@.line, Seq::empty(), failure.message)
}

/// The lines that report a sequence of violations.
pub open spec fn reports(errors: Seq<Failure>) -> Seq<Seq<char>> {
    Seq::new(errors.len(), |i: int| report_of(errors[i]))
}

/// How many tokens lie at or behind `pos`.
pub open spec fn left(ts: Seq<Token>, pos: int) -> nat {
    if pos < ts.len() {
        (ts.len() - pos) as nat
    } else {
        0
    }
}

/// Whether the token at `pos` can be taken: there is one, and it is not
/// the end of the input.
pub open spec fn can_take(ts: Seq<Token>, pos: int) -> bool {
    0 <= pos < ts.len() && ts[pos]@.kind != TokenType::Eof
}

/// Whether the token at `pos` can be taken and is of kind `kind`.
pub open spec fn is_at(ts: Seq<Token>, pos: int, kind: TokenType) -> bool {
    can_take(ts, pos) && ts[pos]@.kind == kind
}

/// Whether `kind` is an operator of the level.
pub open spec fn is_operator(level: Level, kind: TokenType) -> bool {
    match level {
        Level::Equality => kind == TokenType::EqualEqual || kind == TokenType::BangEqual,
        Level::Comparison => kind == TokenType::Greater || kind == TokenType::GreaterEqual || kind
            == TokenType::Less || kind == TokenType::LessEqual,
        Level::Term => kind == TokenType::Plus || kind == TokenType::Minus,
        Level::Factor => kind == TokenType::Star || kind == TokenType::Slash,
    }
}

/// Whether the token at `pos` can be taken and is an operator of the level.
pub open spec fn operator_at(ts: Seq<Token>, pos: int, level: Level) -> bool {
    can_take(ts, pos) && is_operator(level, ts[pos]@.kind)
}

/// The level at whose head a binary operator stands when nothing stands to
/// its left: the level that is then parsed to get past the operator's right
/// operand. `-` is none of them: at the head of an expression it negates.
pub open spec fn stray_operator(kind: TokenType) -> Option<Level> {
    if kind == TokenType::BangEqual || kind == TokenType::EqualEqual {
        Some(Level::Equality)
    } else if kind == TokenType::Less || kind == TokenType::LessEqual || kind == TokenType::Greater
        || kind == TokenType::GreaterEqual {
        Some(Level::Comparison)
    } else if kind == TokenType::Plus {
        Some(Level::Term)
    } else if kind == TokenType::Slash || kind == TokenType::Star {
        Some(Level::Factor)
    } else {
        None
    }
}

/// Where a level stands in the order in which the rules call each other
/// without taking a token.
pub open spec fn rank(level: Level) -> nat {
    match level {
        Level::Equality => 9,
        Level::Comparison => 7,
        Level::Term => 5,
        Level::Factor => 3,
    }
}

/// `expression := comma`
pub open spec fn expression(ts: Seq<Token>, pos: int) -> Parsed
    decreases left(ts, pos), 12nat,
{
    comma(ts, pos)
}

/// `comma := ternary ( "," equality )*`, left-associative.
pub open spec fn comma(ts: Seq<Token>, pos: int) -> Parsed
    decreases left(ts, pos), 11nat,
{
    let first = ternary(ts, pos);
    match first.expr {
        None => first,
        Some(l) => comma_tail(ts, pos + first.consumed, l).after(first.consumed),
    }
}

/// `( "," equality )*`, to the right of `left_operand`.
pub open spec fn comma_tail(ts: Seq<Token>, pos: int, left_operand: Rc<Expr>) -> Parsed
    decreases left(ts, pos), 0nat,
{
    if is_at(ts, pos, TokenType::Comma) {
        let right = binary(ts, pos + 1, Level::Equality);
        match right.expr {
            None => right.after(1),
            Some(r) => comma_tail(
                ts,
                pos + 1 + right.consumed,
                Rc::new(Expr::Binary(left_operand, ts[pos], r)),
            ).after(1 + right.consumed),
        }
    } else {
        Parsed { expr: Some(left_operand), errors: Seq::empty(), consumed: 0 }
    }
}

/// `ternary := equality ( "?" equality ":" equality )?`. A `?` without its
/// `:` is a violation, reported at the last token taken.
pub open spec fn ternary(ts: Seq<Token>, pos: int) -> Parsed
    decreases left(ts, pos), 10nat,
{
    let condition = binary(ts, pos, Level::Equality);
    match condition.expr {
        None => condition,
        Some(c) => {
            let question = pos + condition.consumed;
            if is_at(ts, question, TokenType::QuestionMark) {
                let then_branch = binary(ts, question + 1, Level::Equality);
                match then_branch.expr {
                    None => then_branch.after(condition.consumed + 1),
                    Some(t) => {
                        let colon = question + 1 + then_branch.consumed;
                        if is_at(ts, colon, TokenType::Colon) {
                            let else_branch = binary(ts, colon + 1, Level::Equality);
                            match else_branch.expr {
                                None => else_branch.after((colon + 1 - pos) as nat),
                                Some(e) => ok(
                                    Expr::Conditional(c, t, e),
                                    (colon + 1 - pos + else_branch.consumed) as nat,
                                ),
                            }
                        } else {
                            fail(
                                Seq::empty(),
                                ts[colon - 1],
                                expected_colon(),
                                (colon - pos) as nat,
                            )
                        }
                    },
                }
            } else {
                condition
            }
        },
    }
}

/// What stands on either side of an operator of the level: an expression
/// of the next tighter level.
pub open spec fn operand(ts: Seq<Token>, pos: int, level: Level) -> Parsed
    decreases left(ts, pos), (rank(level) - 1) as nat,
{
    match level {
        Level::Equality => binary(ts, pos, Level::Comparison),
        Level::Comparison => binary(ts, pos, Level::Term),
        Level::Term => binary(ts, pos, Level::Factor),
        Level::Factor => unary(ts, pos),
    }
}

/// `operand ( operator operand )*`, left-associative: the rule of each of
/// the four binary levels.
pub open spec fn binary(ts: Seq<Token>, pos: int, level: Level) -> Parsed
    decreases left(ts, pos), rank(level),
{
    let first = operand(ts, pos, level);
    match first.expr {
        None => first,
        Some(l) => binary_tail(ts, pos + first.consumed, l, level).after(first.consumed),
    }
}

/// `( operator operand )*`, to the right of `left_operand`.
pub open spec fn binary_tail(ts: Seq<Token>, pos: int, left_operand: Rc<Expr>, level: Level) -> Parsed
    decreases left(ts, pos), 0nat,
{
    if operator_at(ts, pos, level) {
        let right = operand(ts, pos + 1, level);
        match right.expr {
            None => right.after(1),
            Some(r) => binary_tail(
                ts,
                pos + 1 + right.consumed,
                Rc::new(Expr::Binary(left_operand, ts[pos], r)),
                level,
            ).after(1 + right.consumed),
        }
    } else {
        Parsed { expr: Some(left_operand), errors: Seq::empty(), consumed: 0 }
    }
}

/// `unary := ( "!" | "-" ) unary | primary`
pub open spec fn unary(ts: Seq<Token>, pos: int) -> Parsed
    decreases left(ts, pos), 1nat,
{
    if is_at(ts, pos, TokenType::Bang) || is_at(ts, pos, TokenType::Minus) {
        let inner = unary(ts, pos + 1);
        match inner.expr {
            None => inner.after(1),
            Some(x) => ok(Expr::Unary(ts[pos], x), 1 + inner.consumed),
        }
    } else {
        primary(ts, pos)
    }
}

/// `primary := "false" | "true" | NUMBER | STRING | "(" expression ")"`.
///
/// A binary operator with nothing to its left is a violation of its own.
/// The operator is taken, and so is what parses as its right operand, so
/// that the cursor stands behind both; what that parse finds is reported
/// first and its expression is dropped. Every other token is a violation
/// that takes nothing.
pub open spec fn primary(ts: Seq<Token>, pos: int) -> Parsed
    decreases left(ts, pos), 0nat,
{
    if is_at(ts, pos, TokenType::False) {
        ok(Expr::Literal(TokenLiteral::Bool(false)), 1)
    } else if is_at(ts, pos, TokenType::True) {
        ok(Expr::Literal(TokenLiteral::Bool(true)), 1)
    } else if is_at(ts, pos, TokenType::Number) || is_at(ts, pos, TokenType::String) {
        ok(Expr::Literal(ts[pos].spec_literal()), 1)
    } else if is_at(ts, pos, TokenType::LeftParen) {
        let inner = expression(ts, pos + 1);
        match inner.expr {
            None => inner.after(1),
            Some(e) => if is_at(ts, pos + 1 + inner.consumed, TokenType::RightParen) {
                ok(Expr::Grouping(e), inner.consumed + 2)
            } else {
                fail(
                    Seq::empty(),
                    ts[pos + inner.consumed],
                    expected_right_paren(),
                    inner.consumed + 1,
                )
            },
        }
    } else if can_take(ts, pos) && stray_operator(ts[pos]@.kind) is Some {
        let skipped = binary(ts, pos + 1, stray_operator(ts[pos]@.kind).unwrap());
        fail(skipped.errors, ts[pos], expected_left_operand(), skipped.consumed + 1)
    } else {
        fail(Seq::empty(), ts[pos], expected_expression(), 0)
    }
}

/// The rules of the grammar, from the loosest binding to the tightest.
pub enum Rule {
    Comma,
    Ternary,
    Binary(Level),
    Unary,
    Primary,
}

/// The rule of the operands of a binary level: the next tighter one.
pub open spec fn tighter(level: Level) -> Rule {
    match level {
        Level::Equality => Rule::Binary(Level::Comparison),
        Level::Comparison => Rule::Binary(Level::Term),
        Level::Term => Rule::Binary(Level::Factor),
        Level::Factor => Rule::Unary,
    }
}

/// Where a rule stands, the loosest highest.
pub open spec fn rule_rank(rule: Rule) -> nat {
    match rule {
        Rule::Comma => 11,
        Rule::Ternary => 10,
        Rule::Binary(level) => rank(level),
        Rule::Unary => 1,
        Rule::Primary => 0,
    }
}

/// Whether an expression has the shape that a rule gives: its operator is
/// one of the rule's, with operands of the shapes the rule asks for, or it
/// has the shape of the next tighter rule. So an operand of `*` is never a
/// sum unless the sum stands in a grouping, and the right operand of an
/// operator is never an operation of the operator's own level.
#[verifier::opaque]
pub open spec fn fits(expr: Expr, rule: Rule) -> bool
    decreases expr, rule_rank(rule),
{
    match rule {
        Rule::Comma => {
            ||| (expr matches Expr::Binary(l, op, r) && op@.kind == TokenType::Comma && fits(
                *l,
                Rule::Comma,
            ) && fits(*r, Rule::Binary(Level::Equality)))
            ||| fits(expr, Rule::Ternary)
        },
        Rule::Ternary => {
            ||| (expr matches Expr::Conditional(c, t, e) && fits(
                *c,
                Rule::Binary(Level::Equality),
            ) && fits(*t, Rule::Binary(Level::Equality)) && fits(
                *e,
                Rule::Binary(Level::Equality),
            ))
            ||| fits(expr, Rule::Binary(Level::Equality))
        },
        Rule::Binary(level) => {
            ||| (expr matches Expr::Binary(l, op, r) && is_operator(level, op@.kind) && fits(
                *l,
                Rule::Binary(level),
            ) && fits(*r, tighter(level)))
            ||| fits(expr, tighter(level))
        },
        Rule::Unary => {
            ||| (expr matches Expr::Unary(op, x) && (op@.kind == TokenType::Bang || op@.kind
                == TokenType::Minus) && fits(*x, Rule::Unary))
            ||| fits(expr, Rule::Primary)
        },
        Rule::Primary => match expr {
            Expr::Literal(_) => true,
            Expr::Grouping(inner) => fits(*inner, Rule::Comma),
            _ => false,
        },
    }
}

/// The node of a binary operation.
pub open spec fn binary_node(left_operand: Rc<Expr>, operator: Token, right_operand: Rc<Expr>) -> Rc<
    Expr,
> {
    Rc::new(Expr::Binary(left_operand, operator, right_operand))
}

/// Whether the `n` tokens from `pos` on can all be taken: none of them is
/// the end of the input.
#[verifier::opaque]
pub open spec fn taken(ts: Seq<Token>, pos: int, n: nat) -> bool {
    forall|k: int| pos <= k < pos + n ==> #[trigger] can_take(ts, k)
}

/// What holds of every parse: it has an expression exactly if it found no
/// violation, it stays within the tokens and takes none that is the end of
/// the input, and an expression takes at least one token and has the shape
/// of its rule.
pub open spec fn sound(ts: Seq<Token>, pos: int, parsed: Parsed, rule: Rule) -> bool {
    &&& parsed.expr is Some <==> parsed.errors.len() == 0
    &&& pos + parsed.consumed <= ts.len()
    &&& taken(ts, pos, parsed.consumed)
    &&& parsed.expr matches Some(e) ==> parsed.consumed >= 1 && fits(*e, rule)
}

/// What holds of every tail of operators and operands behind a left
/// operand: it has an expression exactly if it found no violation, it stays
/// within the tokens, and behind a left operand of the rule's shape its
/// expression has the rule's shape.
pub open spec fn sound_tail(
    ts: Seq<Token>,
    pos: int,
    left_operand: Rc<Expr>,
    parsed: Parsed,
    rule: Rule,
) -> bool {
    &&& parsed.expr is Some <==> parsed.errors.len() == 0
    &&& pos + parsed.consumed <= ts.len()
    &&& taken(ts, pos, parsed.consumed)
    &&& fits(*left_operand, rule) ==> (parsed.expr matches Some(e) ==> fits(*e, rule))
}

/// Every parse of an expression is sound.
pub proof fn lemma_expression(ts: Seq<Token>, pos: int)
    requires
        0 <= pos <= ts.len(),
    ensures
        sound(ts, pos, expression(ts, pos), Rule::Comma),
    decreases left(ts, pos), 12nat,
{
    reveal_with_fuel(fits, 2);
    reveal(taken);
    lemma_comma(ts, pos);
}

/// Every parse at the comma level is sound.
pub proof fn lemma_comma(ts: Seq<Token>, pos: int)
    requires
        0 <= pos <= ts.len(),
    ensures
        sound(ts, pos, comma(ts, pos), Rule::Comma),
    decreases left(ts, pos), 11nat,
{
    reveal_with_fuel(fits, 2);
    reveal(taken);
    lemma_ternary(ts, pos);
    let first = ternary(ts, pos);
    if first.expr is Some {
        lemma_comma_tail(ts, pos + first.consumed, first.expr.unwrap());
    }
}

/// Every tail at the comma level is sound.
pub proof fn lemma_comma_tail(ts: Seq<Token>, pos: int, left_operand: Rc<Expr>)
    requires
        0 <= pos <= ts.len(),
    ensures
        sound_tail(ts, pos, left_operand, comma_tail(ts, pos, left_operand), Rule::Comma),
    decreases left(ts, pos), 0nat,
{
    reveal_with_fuel(fits, 2);
    reveal(taken);
    if is_at(ts, pos, TokenType::Comma) {
        lemma_binary(ts, pos + 1, Level::Equality);
        let right = binary(ts, pos + 1, Level::Equality);
        if right.expr is Some {
            let node = binary_node(left_operand, ts[pos], right.expr.unwrap());
            assert(fits(*left_operand, Rule::Comma) ==> fits(*node, Rule::Comma));
            lemma_comma_tail(ts, pos + 1 + right.consumed, node);
        }
    }
}

/// Every parse at the ternary level is sound.
pub proof fn lemma_ternary(ts: Seq<Token>, pos: int)
    requires
        0 <= pos <= ts.len(),
    ensures
        sound(ts, pos, ternary(ts, pos), Rule::Ternary),
    decreases left(ts, pos), 10nat,
{
    reveal_with_fuel(fits, 2);
    reveal(taken);
    lemma_binary(ts, pos, Level::Equality);
    let condition = binary(ts, pos, Level::Equality);
    if condition.expr is Some {
        let question = pos + condition.consumed;
        if is_at(ts, question, TokenType::QuestionMark) {
            lemma_binary(ts, question + 1, Level::Equality);
            let then_branch = binary(ts, question + 1, Level::Equality);
            if then_branch.expr is Some {
                let colon = question + 1 + then_branch.consumed;
                if is_at(ts, colon, TokenType::Colon) {
                    lemma_binary(ts, colon + 1, Level::Equality);
                }
            }
        }
    }
}

/// Every operand of a binary level is sound.
pub proof fn lemma_operand(ts: Seq<Token>, pos: int, level: Level)
    requires
        0 <= pos <= ts.len(),
    ensures
        sound(ts, pos, operand(ts, pos, level), tighter(level)),
    decreases left(ts, pos), (rank(level) - 1) as nat,
{
    reveal_with_fuel(fits, 2);
    reveal(taken);
    match level {
        Level::Equality => lemma_binary(ts, pos, Level::Comparison),
        Level::Comparison => lemma_binary(ts, pos, Level::Term),
        Level::Term => lemma_binary(ts, pos, Level::Factor),
        Level::Factor => lemma_unary(ts, pos),
    }
}

/// Every parse at a binary level is sound.
pub proof fn lemma_binary(ts: Seq<Token>, pos: int, level: Level)
    requires
        0 <= pos <= ts.len(),
    ensures
        sound(ts, pos, binary(ts, pos, level), Rule::Binary(level)),
    decreases left(ts, pos), rank(level),
{
    reveal_with_fuel(fits, 2);
    reveal(taken);
    lemma_operand(ts, pos, level);
    let first = operand(ts, pos, level);
    if first.expr is Some {
        lemma_binary_tail(ts, pos + first.consumed, first.expr.unwrap(), level);
    }
}

/// Every tail at a binary level is sound.
pub proof fn lemma_binary_tail(ts: Seq<Token>, pos: int, left_operand: Rc<Expr>, level: Level)
    requires
        0 <= pos <= ts.len(),
    ensures
        sound_tail(
            ts,
            pos,
            left_operand,
            binary_tail(ts, pos, left_operand, level),
            Rule::Binary(level),
        ),
    decreases left(ts, pos), 0nat,
{
    reveal_with_fuel(fits, 2);
    reveal(taken);
    if operator_at(ts, pos, level) {
        lemma_operand(ts, pos + 1, level);
        let right = operand(ts, pos + 1, level);
        if right.expr is Some {
            let node = binary_node(left_operand, ts[pos], right.expr.unwrap());
            assert(fits(*left_operand, Rule::Binary(level)) ==> fits(*node, Rule::Binary(level)));
            lemma_binary_tail(ts, pos + 1 + right.consumed, node, level);
        }
    }
}

/// Every parse at the unary level is sound.
pub proof fn lemma_unary(ts: Seq<Token>, pos: int)
    requires
        0 <= pos <= ts.len(),
    ensures
        sound(ts, pos, unary(ts, pos), Rule::Unary),
    decreases left(ts, pos), 1nat,
{
    reveal_with_fuel(fits, 2);
    reveal(taken);
    if is_at(ts, pos, TokenType::Bang) || is_at(ts, pos, TokenType::Minus) {
        lemma_unary(ts, pos + 1);
    } else {
        lemma_primary(ts, pos);
    }
}

/// Every parse of a primary is sound.
pub proof fn lemma_primary(ts: Seq<Token>, pos: int)
    requires
        0 <= pos <= ts.len(),
    ensures
        sound(ts, pos, primary(ts, pos), Rule::Primary),
    decreases left(ts, pos), 0nat,
{
    reveal_with_fuel(fits, 2);
    reveal(taken);
    if is_at(ts, pos, TokenType::False) {
    } else if is_at(ts, pos, TokenType::True) {
    } else if is_at(ts, pos, TokenType::Number) || is_at(ts, pos, TokenType::String) {
    } else if is_at(ts, pos, TokenType::LeftParen) {
        lemma_expression(ts, pos + 1);
    } else if can_take(ts, pos) && stray_operator(ts[pos]@.kind) is Some {
        lemma_binary(ts, pos + 1, stray_operator(ts[pos]@.kind).unwrap());
    }
}

/// The kinds of a sequence of tokens.
pub open spec fn kinds_of(ts: Seq<Token>) -> Seq<TokenType> {
    Seq::new(ts.len(), |i: int| ts[i]@.kind)
}

/// Whether every number token carries a number and every string token a
/// text, as the scanner's tokens do.
pub open spec fn literal_matches_kind(token: Token) -> bool {
    &&& token@.kind == TokenType::Number ==> token.spec_literal() is Num
    &&& token@.kind == TokenType::String ==> token.spec_literal() is Str
}

/// Whether every token of a sequence carries what its kind asks for.
pub open spec fn literals_match_kinds(ts: Seq<Token>) -> bool {
    forall|i: int| 0 <= i < ts.len() ==> #[trigger] literal_matches_kind(ts[i])
}

/// The kinds of the tokens that an expression is written with, in the
/// order in which they are written.
#[verifier::opaque]
pub open spec fn written_with(expr: Expr) -> Seq<TokenType>
    decreases expr,
{
    match expr {
        Expr::Literal(TokenLiteral::Str(_)) => seq![TokenType::String],
        Expr::Literal(TokenLiteral::Num(_)) => seq![TokenType::Number],
        Expr::Literal(TokenLiteral::Bool(b)) => if b {
            seq![TokenType::True]
        } else {
            seq![TokenType::False]
        },
        Expr::Unary(operator, operand) => seq![operator@.kind] + written_with(*operand),
        Expr::Binary(left_operand, operator, right_operand) => written_with(*left_operand)
            + seq![operator@.kind] + written_with(*right_operand),
        Expr::Grouping(inner) => seq![TokenType::LeftParen] + written_with(*inner)
            + seq![TokenType::RightParen],
        Expr::Conditional(condition, then_branch, else_branch) => written_with(*condition)
            + seq![TokenType::QuestionMark] + written_with(*then_branch) + seq![TokenType::Colon]
            + written_with(*else_branch),
    }
}

/// Whether the expression of a parse is written with exactly the tokens
/// that the parse has taken.
pub open spec fn faithful(ts: Seq<Token>, pos: int, parsed: Parsed) -> bool {
    parsed.expr matches Some(e) ==> written_with(*e) == kinds_of(ts).subrange(
        pos,
        pos + parsed.consumed,
    )
}

/// Whether the expression of a tail is written with the tokens of its left
/// operand and then exactly the tokens that the tail has taken.
pub open spec fn faithful_tail(ts: Seq<Token>, pos: int, left_operand: Rc<Expr>, parsed: Parsed) -> bool {
    parsed.expr matches Some(e) ==> written_with(*e) == written_with(*left_operand) + kinds_of(
        ts,
    ).subrange(pos, pos + parsed.consumed)
}

/// Two stretches of tokens that meet make one stretch.
proof fn lemma_stretches(ts: Seq<Token>, a: int, b: int, c: int)
    requires
        0 <= a <= b <= c <= ts.len(),
    ensures
        kinds_of(ts).subrange(a, b) + kinds_of(ts).subrange(b, c) == kinds_of(ts).subrange(a, c),
        b < c ==> kinds_of(ts).subrange(b, b + 1) == seq![ts[b]@.kind],
        kinds_of(ts).subrange(a, a) == Seq::<TokenType>::empty(),
{
    assert(kinds_of(ts).subrange(a, b) + kinds_of(ts).subrange(b, c) =~= kinds_of(ts).subrange(
        a,
        c,
    ));
    if b < c {
        assert(kinds_of(ts).subrange(b, b + 1) =~= seq![ts[b]@.kind]);
    }
    assert(kinds_of(ts).subrange(a, a) =~= Seq::<TokenType>::empty());
}

/// What a rule's expression is written with, from what its first operand
/// and the tail behind it are written with.
proof fn lemma_then_tail(ts: Seq<Token>, pos: int, first: Parsed, tail: Parsed)
    requires
        0 <= pos,
        first.expr is Some,
        pos + first.consumed + tail.consumed <= ts.len(),
        faithful(ts, pos, first),
        faithful_tail(ts, pos + first.consumed, first.expr.unwrap(), tail),
    ensures
        faithful(ts, pos, tail.after(first.consumed)),
{
    lemma_stretches(ts, pos, pos + first.consumed, pos + first.consumed + tail.consumed);
}

/// The expression of a parse is written with the tokens taken.
pub proof fn lemma_faithful_expression(ts: Seq<Token>, pos: int)
    requires
        0 <= pos <= ts.len(),
        literals_match_kinds(ts),
    ensures
        faithful(ts, pos, expression(ts, pos)),
    decreases left(ts, pos), 12nat,
{
    lemma_faithful_comma(ts, pos);
}

/// The expression of a parse at the comma level is written with the
/// tokens taken.
pub proof fn lemma_faithful_comma(ts: Seq<Token>, pos: int)
    requires
        0 <= pos <= ts.len(),
        literals_match_kinds(ts),
    ensures
        faithful(ts, pos, comma(ts, pos)),
    decreases left(ts, pos), 11nat,
{
    lemma_ternary(ts, pos);
    lemma_faithful_ternary(ts, pos);
    let first = ternary(ts, pos);
    if first.expr is Some {
        let next = pos + first.consumed;
        let tail = comma_tail(ts, next, first.expr.unwrap());
        lemma_comma_tail(ts, next, first.expr.unwrap());
        lemma_faithful_comma_tail(ts, next, first.expr.unwrap());
        lemma_then_tail(ts, pos, first, tail);
        assert(comma(ts, pos) == tail.after(first.consumed));
    } else {
        assert(comma(ts, pos) == first);
    }
}

/// The expression of a tail at the comma level is written with its left
/// operand's tokens and the tokens taken.
pub proof fn lemma_faithful_comma_tail(ts: Seq<Token>, pos: int, left_operand: Rc<Expr>)
    requires
        0 <= pos <= ts.len(),
        literals_match_kinds(ts),
    ensures
        faithful_tail(ts, pos, left_operand, comma_tail(ts, pos, left_operand)),
    decreases left(ts, pos), 0nat,
{
    if is_at(ts, pos, TokenType::Comma) {
        lemma_binary(ts, pos + 1, Level::Equality);
        lemma_faithful_binary(ts, pos + 1, Level::Equality);
        let right = binary(ts, pos + 1, Level::Equality);
        if right.expr is Some {
            let node = binary_node(left_operand, ts[pos], right.expr.unwrap());
            let next = pos + 1 + right.consumed;
            lemma_comma_tail(ts, next, node);
            lemma_faithful_comma_tail(ts, next, node);
            let tail = comma_tail(ts, next, node);
            lemma_stretches(ts, pos, pos + 1, next);
            lemma_stretches(ts, pos, next, next + tail.consumed);
            lemma_tail_of_node(ts, pos, left_operand, right, tail);
        }
    } else {
        lemma_stretches(ts, pos, pos, pos);
        assert(written_with(*left_operand) + Seq::<TokenType>::empty() =~= written_with(
            *left_operand,
        ));
    }
}

/// What a tail behind a new node is written with, from what the node's
/// right operand and the tail behind the node are written with.
proof fn lemma_tail_of_node(
    ts: Seq<Token>,
    pos: int,
    left_operand: Rc<Expr>,
    right: Parsed,
    tail: Parsed,
)
    requires
        0 <= pos < ts.len(),
        right.expr is Some,
        pos + 1 + right.consumed + tail.consumed <= ts.len(),
        faithful(ts, pos + 1, right),
        faithful_tail(
            ts,
            pos + 1 + right.consumed,
            binary_node(left_operand, ts[pos], right.expr.unwrap()),
            tail,
        ),
    ensures
        faithful_tail(ts, pos, left_operand, tail.after(1 + right.consumed)),
{
    reveal_with_fuel(written_with, 2);
    if tail.expr is Some {
        let next = pos + 1 + right.consumed;
        lemma_stretches(ts, pos, pos + 1, next);
        lemma_stretches(ts, pos, next, next + tail.consumed);
        let k = kinds_of(ts);
        assert(written_with(*left_operand) + seq![ts[pos]@.kind] + k.subrange(pos + 1, next)
            + k.subrange(next, next + tail.consumed) =~= written_with(*left_operand) + k.subrange(
            pos,
            next + tail.consumed,
        ));
    }
}

/// A conditional is written with its three parts, `?` and `:` between them.
proof fn lemma_conditional_written(
    ts: Seq<Token>,
    pos: int,
    question: int,
    colon: int,
    end: int,
    condition: Rc<Expr>,
    then_branch: Rc<Expr>,
    else_branch: Rc<Expr>,
)
    requires
        0 <= pos <= question < colon < end <= ts.len(),
        ts[question]@.kind == TokenType::QuestionMark,
        ts[colon]@.kind == TokenType::Colon,
        written_with(*condition) == kinds_of(ts).subrange(pos, question),
        written_with(*then_branch) == kinds_of(ts).subrange(question + 1, colon),
        written_with(*else_branch) == kinds_of(ts).subrange(colon + 1, end),
    ensures
        written_with(Expr::Conditional(condition, then_branch, else_branch)) == kinds_of(
            ts,
        ).subrange(pos, end),
{
    reveal_with_fuel(written_with, 2);
    lemma_stretches(ts, pos, question, question + 1);
    lemma_stretches(ts, pos, question + 1, colon);
    lemma_stretches(ts, pos, colon, colon + 1);
    lemma_stretches(ts, pos, colon + 1, end);
}

/// The expression of a parse at the ternary level is written with the
/// tokens taken.
pub proof fn lemma_faithful_ternary(ts: Seq<Token>, pos: int)
    requires
        0 <= pos <= ts.len(),
        literals_match_kinds(ts),
    ensures
        faithful(ts, pos, ternary(ts, pos)),
    decreases left(ts, pos), 10nat,
{
    let whole = ternary(ts, pos);
    if whole.expr is Some {
        lemma_binary(ts, pos, Level::Equality);
        lemma_faithful_binary(ts, pos, Level::Equality);
        let condition = binary(ts, pos, Level::Equality);
        let question = pos + condition.consumed;
        if is_at(ts, question, TokenType::QuestionMark) {
            lemma_binary(ts, question + 1, Level::Equality);
            lemma_faithful_binary(ts, question + 1, Level::Equality);
            let then_branch = binary(ts, question + 1, Level::Equality);
            let colon = question + 1 + then_branch.consumed;
            lemma_binary(ts, colon + 1, Level::Equality);
            lemma_faithful_binary(ts, colon + 1, Level::Equality);
            let else_branch = binary(ts, colon + 1, Level::Equality);
            let end = colon + 1 + else_branch.consumed;
            assert(whole == ok(
                Expr::Conditional(
                    condition.expr.unwrap(),
                    then_branch.expr.unwrap(),
                    else_branch.expr.unwrap(),
                ),
                (end - pos) as nat,
            ));
            lemma_conditional_written(
                ts,
                pos,
                question,
                colon,
                end,
                condition.expr.unwrap(),
                then_branch.expr.unwrap(),
                else_branch.expr.unwrap(),
            );
        } else {
            assert(whole == condition);
        }
    }
}

/// The expression of an operand of a binary level is written with the
/// tokens taken.
pub proof fn lemma_faithful_operand(ts: Seq<Token>, pos: int, level: Level)
    requires
        0 <= pos <= ts.len(),
        literals_match_kinds(ts),
    ensures
        faithful(ts, pos, operand(ts, pos, level)),
    decreases left(ts, pos), (rank(level) - 1) as nat,
{
    match level {
        Level::Equality => lemma_faithful_binary(ts, pos, Level::Comparison),
        Level::Comparison => lemma_faithful_binary(ts, pos, Level::Term),
        Level::Term => lemma_faithful_binary(ts, pos, Level::Factor),
        Level::Factor => lemma_faithful_unary(ts, pos),
    }
}

/// The expression of a parse at a binary level is written with the tokens
/// taken.
pub proof fn lemma_faithful_binary(ts: Seq<Token>, pos: int, level: Level)
    requires
        0 <= pos <= ts.len(),
        literals_match_kinds(ts),
    ensures
        faithful(ts, pos, binary(ts, pos, level)),
    decreases left(ts, pos), rank(level),
{
    lemma_operand(ts, pos, level);
    lemma_faithful_operand(ts, pos, level);
    let first = operand(ts, pos, level);
    if first.expr is Some {
        let next = pos + first.consumed;
        let tail = binary_tail(ts, next, first.expr.unwrap(), level);
        lemma_binary_tail(ts, next, first.expr.unwrap(), level);
        lemma_faithful_binary_tail(ts, next, first.expr.unwrap(), level);
        lemma_then_tail(ts, pos, first, tail);
        assert(binary(ts, pos, level) == tail.after(first.consumed));
    } else {
        assert(binary(ts, pos, level) == first);
    }
}

/// The expression of a tail at a binary level is written with its left
/// operand's tokens and the tokens taken.
pub proof fn lemma_faithful_binary_tail(
    ts: Seq<Token>,
    pos: int,
    left_operand: Rc<Expr>,
    level: Level,
)
    requires
        0 <= pos <= ts.len(),
        literals_match_kinds(ts),
    ensures
        faithful_tail(ts, pos, left_operand, binary_tail(ts, pos, left_operand, level)),
    decreases left(ts, pos), 0nat,
{
    if operator_at(ts, pos, level) {
        lemma_operand(ts, pos + 1, level);
        lemma_faithful_operand(ts, pos + 1, level);
        let right = operand(ts, pos + 1, level);
        if right.expr is Some {
            let node = binary_node(left_operand, ts[pos], right.expr.unwrap());
            let next = pos + 1 + right.consumed;
            lemma_binary_tail(ts, next, node, level);
            lemma_faithful_binary_tail(ts, next, node, level);
            let tail = binary_tail(ts, next, node, level);
            lemma_tail_of_node(ts, pos, left_operand, right, tail);
        }
    } else {
        lemma_stretches(ts, pos, pos, pos);
        assert(written_with(*left_operand) + Seq::<TokenType>::empty() =~= written_with(
            *left_operand,
        ));
    }
}

/// The expression of a parse at the unary level is written with the
/// tokens taken.
pub proof fn lemma_faithful_unary(ts: Seq<Token>, pos: int)
    requires
        0 <= pos <= ts.len(),
        literals_match_kinds(ts),
    ensures
        faithful(ts, pos, unary(ts, pos)),
    decreases left(ts, pos), 1nat,
{
    reveal_with_fuel(written_with, 2);
    if is_at(ts, pos, TokenType::Bang) || is_at(ts, pos, TokenType::Minus) {
        lemma_unary(ts, pos + 1);
        lemma_faithful_unary(ts, pos + 1);
        let inner = unary(ts, pos + 1);
        if inner.expr is Some {
            lemma_stretches(ts, pos, pos, pos + 1);
            lemma_stretches(ts, pos, pos + 1, pos + 1 + inner.consumed);
        }
    } else {
        lemma_faithful_primary(ts, pos);
    }
}

/// A grouping is written with its inside between parentheses.
proof fn lemma_grouping_written(ts: Seq<Token>, pos: int, close: int, inner: Rc<Expr>)
    requires
        0 <= pos < close < ts.len(),
        ts[pos]@.kind == TokenType::LeftParen,
        ts[close]@.kind == TokenType::RightParen,
        written_with(*inner) == kinds_of(ts).subrange(pos + 1, close),
    ensures
        written_with(Expr::Grouping(inner)) == kinds_of(ts).subrange(pos, close + 1),
{
    reveal_with_fuel(written_with, 2);
    lemma_stretches(ts, pos, pos, pos + 1);
    lemma_stretches(ts, pos, pos + 1, close);
    lemma_stretches(ts, pos, close, close + 1);
}

/// A literal is written with the one token that it is taken from.
proof fn lemma_literal_written(ts: Seq<Token>, pos: int)
    requires
        0 <= pos < ts.len(),
        literal_matches_kind(ts[pos]),
    ensures
        ts[pos]@.kind == TokenType::False ==> written_with(
            Expr::Literal(TokenLiteral::Bool(false)),
        ) == kinds_of(ts).subrange(pos, pos + 1),
        ts[pos]@.kind == TokenType::True ==> written_with(Expr::Literal(TokenLiteral::Bool(true)))
            == kinds_of(ts).subrange(pos, pos + 1),
        ts[pos]@.kind == TokenType::Number || ts[pos]@.kind == TokenType::String ==> written_with(
            Expr::Literal(ts[pos].spec_literal()),
        ) == kinds_of(ts).subrange(pos, pos + 1),
{
    reveal_with_fuel(written_with, 2);
    lemma_stretches(ts, pos, pos, pos + 1);
}

/// The expression of a parse of a primary is written with the tokens
/// taken.
pub proof fn lemma_faithful_primary(ts: Seq<Token>, pos: int)
    requires
        0 <= pos <= ts.len(),
        literals_match_kinds(ts),
    ensures
        faithful(ts, pos, primary(ts, pos)),
    decreases left(ts, pos), 0nat,
{
    let whole = primary(ts, pos);
    if whole.expr is Some {
        if is_at(ts, pos, TokenType::False) || is_at(ts, pos, TokenType::True) || is_at(
            ts,
            pos,
            TokenType::Number,
        ) || is_at(ts, pos, TokenType::String) {
            assert(literal_matches_kind(ts[pos]));
            lemma_literal_written(ts, pos);
        } else {
            assert(is_at(ts, pos, TokenType::LeftParen));
            lemma_expression(ts, pos + 1);
            lemma_faithful_expression(ts, pos + 1);
            let inner = expression(ts, pos + 1);
            let close = pos + 1 + inner.consumed;
            assert(whole == ok(Expr::Grouping(inner.expr.unwrap()), inner.consumed + 2));
            lemma_grouping_written(ts, pos, close, inner.expr.unwrap());
        }
    }
}

/// Nothing is dropped and nothing is made up: the expression that a parse
/// gives is written with exactly the tokens that the parse has taken, in
/// their order, where number and string tokens carry numbers and texts.
pub proof fn lemma_faithful(ts: Seq<Token>, pos: int)
    requires
        0 <= pos <= ts.len(),
        literals_match_kinds(ts),
    ensures
        expression(ts, pos).expr matches Some(e) ==> written_with(*e) == kinds_of(ts).subrange(
            pos,
            pos + expression(ts, pos).consumed,
        ),
{
    lemma_faithful_expression(ts, pos);
}

/// A parse that gives an expression stops before the end of the input:
/// where `Eof` is the last token, the parse leaves at least that one.
pub proof fn lemma_stops_before_end(ts: Seq<Token>, pos: int)
    requires
        0 <= pos <= ts.len(),
        ts.len() > 0,
        ts.last()@.kind == TokenType::Eof,
    ensures
        expression(ts, pos).expr is Some ==> pos + expression(ts, pos).consumed < ts.len(),
{
    lemma_expression(ts, pos);
    reveal(taken);
    let parsed = expression(ts, pos);
    if parsed.expr is Some {
        assert(can_take(ts, pos + parsed.consumed - 1));
    }
}

/// Precedence and associativity: the expression that a parse gives has, at
/// every operator, operands of the shapes the grammar asks for. A looser
/// operator never stands directly under a tighter one, and of two operators
/// of one level the left one stands under the right one.
pub proof fn lemma_precedence(ts: Seq<Token>, pos: int)
    requires
        0 <= pos <= ts.len(),
    ensures
        expression(ts, pos).expr matches Some(e) ==> fits(*e, Rule::Comma),
{
    lemma_expression(ts, pos);
}

/// A parse gives an expression exactly if it reports nothing, and an
/// expression takes at least one token; no parse goes beyond the tokens.
pub proof fn lemma_outcome(ts: Seq<Token>, pos: int)
    requires
        0 <= pos <= ts.len(),
    ensures
        expression(ts, pos).expr is Some <==> expression(ts, pos).errors.len() == 0,
        expression(ts, pos).expr is Some ==> expression(ts, pos).consumed >= 1,
        pos + expression(ts, pos).consumed <= ts.len(),
{
    lemma_expression(ts, pos);
}

/// A binary operator at the head of an expression is a violation that
/// moves the cursor: the parse fails with "Expected left hand operand" at
/// the operator, after it has taken the operator and what parses as its
/// right operand, which is at least one more token where a number or a
/// string follows.
pub proof fn lemma_stray_operator(ts: Seq<Token>, pos: int, level: Level)
    requires
        can_take(ts, pos),
        stray_operator(ts[pos]@.kind) == Some(level),
    ensures
        expression(ts, pos) == primary(ts, pos),
        expression(ts, pos).expr is None,
        expression(ts, pos).errors.len() > 0,
        expression(ts, pos).errors.last() == (Failure {
            token: ts[pos],
            message: expected_left_operand(),
        }),
        expression(ts, pos).consumed == 1 + binary(ts, pos + 1, level).consumed,
        is_at(ts, pos + 1, TokenType::Number) || is_at(ts, pos + 1, TokenType::String)
            ==> expression(ts, pos).consumed >= 2,
{
    let kind = ts[pos]@.kind;
    let p = primary(ts, pos);
    assert(p.expr is None);
    assert(unary(ts, pos) == p);
    assert(operand(ts, pos, Level::Factor) == p);
    assert(binary(ts, pos, Level::Factor) == p);
    assert(operand(ts, pos, Level::Term) == p);
    assert(binary(ts, pos, Level::Term) == p);
    assert(operand(ts, pos, Level::Comparison) == p);
    assert(binary(ts, pos, Level::Comparison) == p);
    assert(operand(ts, pos, Level::Equality) == p);
    assert(binary(ts, pos, Level::Equality) == p);
    assert(ternary(ts, pos) == p);
    assert(comma(ts, pos) == p);
    if is_at(ts, pos + 1, TokenType::Number) || is_at(ts, pos + 1, TokenType::String) {
        lemma_starts_with_literal(ts, pos + 1, level);
    }
}

/// Where a number or a string stands, every binary level takes it.
pub proof fn lemma_starts_with_literal(ts: Seq<Token>, pos: int, level: Level)
    requires
        is_at(ts, pos, TokenType::Number) || is_at(ts, pos, TokenType::String),
    ensures
        binary(ts, pos, level).consumed >= 1,
    decreases rank(level),
{
    let p = primary(ts, pos);
    assert(p.expr is Some && p.consumed == 1);
    assert(unary(ts, pos) == p);
    match level {
        Level::Equality => lemma_starts_with_literal(ts, pos, Level::Comparison),
        Level::Comparison => lemma_starts_with_literal(ts, pos, Level::Term),
        Level::Term => lemma_starts_with_literal(ts, pos, Level::Factor),
        Level::Factor => {},
    }
    assert(operand(ts, pos, level).consumed >= 1);
}

} // verus!

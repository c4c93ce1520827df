//! The tree-walking interpreter.
//!
//! The interpreter decides: which operand types an operator accepts, which
//! failure a mismatch gives, in which order operands are evaluated, which
//! branch of a conditional is taken. It does not compute with numbers. The
//! numbers of the language are those of an `Arithmetic` that the caller
//! supplies, and every contract here is stated relative to it: a result
//! that holds a number says which call of the arithmetic returned it, and
//! on which operands.

use vstd::prelude::*;
use vstd::string::StringExecFns;
use crate::error::LuxError;
use std::rc::Rc;
use crate::token::{Numeral, Token, TokenLiteral, TokenType};
use crate::visitor::SafeVisitor;
use crate::Expr;

verus! {

/// How two numbers compare. `Unordered` is for pairs that no order
/// relates, such as any pair that holds a NaN.
#[derive(Debug, PartialEq, Eq, Clone, Copy, Structural)]
pub enum Order {
    Less,
    Equal,
    Greater,
    Unordered,
}

/// The numbers of the language and the operations on them.
pub trait Arithmetic {
    type Number;

    /// The number that a numeral denotes.
    fn number(&self, numeral: &Numeral) -> Self::Number;

    /// `-operand`.
    fn negate(&self, operand: &Self::Number) -> Self::Number;

    /// `left + right`.
    fn sum(&self, left: &Self::Number, right: &Self::Number) -> Self::Number;

    /// `left - right`.
    fn difference(&self, left: &Self::Number, right: &Self::Number) -> Self::Number;

    /// `left * right`.
    fn product(&self, left: &Self::Number, right: &Self::Number) -> Self::Number;

    /// `left / right`. Division by zero is the arithmetic's to define; to
    /// the interpreter it is a division like any other.
    fn quotient(&self, left: &Self::Number, right: &Self::Number) -> Self::Number;

    /// How `left` compares to `right`.
    fn order(&self, left: &Self::Number, right: &Self::Number) -> Order;
}

/// A runtime value.
#[derive(Debug, PartialEq)]
pub enum Value<N> {
    String(String),
    Number(N),
    Boolean(bool),
}

/// What evaluating an expression comes to.
pub type Outcome<N> = Result<Value<N>, LuxError>;

pub open spec fn operand_must_be_number() -> Seq<char> {
    "Operand must be a number."@
}

pub open spec fn operands_must_be_numbers() -> Seq<char> {
    "Operands must be numbers."@
}

pub open spec fn operands_must_be_numbers_or_strings() -> Seq<char> {
    "Operand must be either numbers or strings."@
}

/// `failure` is the type error of the operator `kind` with the given
/// message.
pub open spec fn is_mismatch(failure: LuxError, kind: TokenType, message: Seq<char>) -> bool {
    failure matches LuxError::Interpreter(k, m) && k == kind && m@ == message
}

/// `out` is the type error of the operator `kind` with the given message.
pub open spec fn is_type_error<N>(out: Outcome<N>, kind: TokenType, message: Seq<char>) -> bool {
    out matches Err(failure) && is_mismatch(failure, kind, message)
}

/// `-`, `/` and `*`: the operators that take two numbers and give a number.
pub open spec fn is_arithmetic(kind: TokenType) -> bool {
    kind == TokenType::Minus || kind == TokenType::Slash || kind == TokenType::Star
}

/// The operators that take two numbers and give a boolean.
pub open spec fn is_comparison(kind: TokenType) -> bool {
    kind == TokenType::Greater || kind == TokenType::GreaterEqual || kind == TokenType::Less
        || kind == TokenType::LessEqual || kind == TokenType::EqualEqual || kind
        == TokenType::BangEqual
}

/// Whether the comparison `kind` holds of two numbers that compare as
/// `order`. Of an unordered pair only `!=` holds.
pub open spec fn holds(kind: TokenType, order: Order) -> bool {
    match kind {
        TokenType::Greater => order == Order::Greater,
        TokenType::GreaterEqual => order == Order::Greater || order == Order::Equal,
        TokenType::Less => order == Order::Less,
        TokenType::LessEqual => order == Order::Less || order == Order::Equal,
        TokenType::EqualEqual => order == Order::Equal,
        _ => order != Order::Equal,
    }
}

/// A literal evaluates to the constant it holds; a number literal to what
/// the arithmetic makes of its numeral.
pub open spec fn literal_outcome<A: Arithmetic>(
    numbers: A,
    literal: TokenLiteral,
    out: Outcome<A::Number>,
) -> bool {
    match literal {
        TokenLiteral::Str(s) => out == Ok::<Value<A::Number>, LuxError>(Value::String(s)),
        TokenLiteral::Num(numeral) => exists|n: A::Number|
            call_ensures(A::number, (&numbers, &numeral), n) && out == Ok::<
                Value<A::Number>,
                LuxError,
            >(Value::Number(n)),
        TokenLiteral::Bool(b) => out == Ok::<Value<A::Number>, LuxError>(Value::Boolean(b)),
    }
}

/// What the unary operator `kind` makes of the value `operand`.
///
/// `-` negates a number and rejects every other value. `!` negates a
/// boolean; a value that is no boolean has no negation, and asking for it
/// is a runtime failure, as is every operator but these two.
pub open spec fn unary_result<A: Arithmetic>(
    numbers: A,
    kind: TokenType,
    operand: Value<A::Number>,
    out: Outcome<A::Number>,
) -> bool {
    if kind == TokenType::Minus {
        match operand {
            Value::Number(n) => exists|negated: A::Number|
                call_ensures(A::negate, (&numbers, &n), negated) && out == Ok::<
                    Value<A::Number>,
                    LuxError,
                >(Value::Number(negated)),
            _ => is_type_error(out, kind, operand_must_be_number()),
        }
    } else if kind == TokenType::Bang {
        match operand {
            Value::Boolean(b) => out == Ok::<Value<A::Number>, LuxError>(Value::Boolean(!b)),
            _ => out == Err::<Value<A::Number>, LuxError>(LuxError::Runtime),
        }
    } else {
        out == Err::<Value<A::Number>, LuxError>(LuxError::Runtime)
    }
}

/// What the arithmetic gives for `left kind right`, for `+ - / *`.
pub open spec fn computed<A: Arithmetic>(
    numbers: A,
    kind: TokenType,
    left: A::Number,
    right: A::Number,
    result: A::Number,
) -> bool {
    match kind {
        TokenType::Plus => call_ensures(A::sum, (&numbers, &left, &right), result),
        TokenType::Minus => call_ensures(A::difference, (&numbers, &left, &right), result),
        TokenType::Star => call_ensures(A::product, (&numbers, &left, &right), result),
        _ => call_ensures(A::quotient, (&numbers, &left, &right), result),
    }
}

/// What the binary operator `kind` makes of the values `left` and `right`.
///
/// `+` joins two strings and adds two numbers. `- / *` and the six
/// comparisons take two numbers. Every other pairing is the operator's
/// type error; every other operator is a runtime failure.
pub open spec fn binary_result<A: Arithmetic>(
    numbers: A,
    kind: TokenType,
    left: Value<A::Number>,
    right: Value<A::Number>,
    out: Outcome<A::Number>,
) -> bool {
    if kind == TokenType::Plus {
        match (left, right) {
            (Value::String(a), Value::String(b)) => out matches Ok(Value::String(joined))
                && joined@ == a@ + b@,
            (Value::Number(a), Value::Number(b)) => exists|n: A::Number|
                computed(numbers, kind, a, b, n) && out == Ok::<Value<A::Number>, LuxError>(
                    Value::Number(n),
                ),
            _ => is_type_error(out, kind, operands_must_be_numbers_or_strings()),
        }
    } else if is_arithmetic(kind) {
        match (left, right) {
            (Value::Number(a), Value::Number(b)) => exists|n: A::Number|
                computed(numbers, kind, a, b, n) && out == Ok::<Value<A::Number>, LuxError>(
                    Value::Number(n),
                ),
            _ => is_type_error(out, kind, operands_must_be_numbers()),
        }
    } else if is_comparison(kind) {
        match (left, right) {
            (Value::Number(a), Value::Number(b)) => exists|order: Order|
                call_ensures(A::order, (&numbers, &a, &b), order) && out == Ok::<
                    Value<A::Number>,
                    LuxError,
                >(Value::Boolean(holds(kind, order))),
            _ => is_type_error(out, kind, operands_must_be_numbers()),
        }
    } else {
        out == Err::<Value<A::Number>, LuxError>(LuxError::Runtime)
    }
}

/// What a unary expression comes to, given what its operand came to: the
/// operand's failure, or what the operator makes of its value.
pub open spec fn after_operand<A: Arithmetic>(
    numbers: A,
    kind: TokenType,
    operand: Outcome<A::Number>,
    out: Outcome<A::Number>,
) -> bool {
    match operand {
        Err(failure) => out == Err::<Value<A::Number>, LuxError>(failure),
        Ok(value) => unary_result(numbers, kind, value, out),
    }
}

/// What a binary expression comes to, given what its operands came to: the
/// left operand's failure, else the right operand's, else what the
/// operator makes of the two values.
pub open spec fn after_operands<A: Arithmetic>(
    numbers: A,
    kind: TokenType,
    left: Outcome<A::Number>,
    right: Outcome<A::Number>,
    out: Outcome<A::Number>,
) -> bool {
    match left {
        Err(failure) => out == Err::<Value<A::Number>, LuxError>(failure),
        Ok(l) => match right {
            Err(failure) => out == Err::<Value<A::Number>, LuxError>(failure),
            Ok(r) => binary_result(numbers, kind, l, r, out),
        },
    }
}

/// What a conditional does once its condition is evaluated.
pub enum Branch {
    /// The condition is true: the expression is its `then` branch.
    Then,
    /// The condition is false: the expression is its `else` branch.
    Else,
    /// The condition failed, or is no boolean: the expression fails.
    Stop(LuxError),
}

pub open spec fn branch_of<N>(condition: Outcome<N>) -> Branch {
    match condition {
        Ok(Value::Boolean(true)) => Branch::Then,
        Ok(Value::Boolean(false)) => Branch::Else,
        Ok(_) => Branch::Stop(LuxError::Runtime),
        Err(failure) => Branch::Stop(failure),
    }
}

/// `out` is what evaluating `expr` comes to, over the numbers of `numbers`.
///
/// Operands are evaluated left before right and a failure ends the
/// evaluation. The right operand is not looked at when the left one fails,
/// and of a conditional only the condition and the branch it selects count.
pub open spec fn evaluates<A: Arithmetic>(numbers: A, expr: Expr, out: Outcome<A::Number>) -> bool
    decreases expr,
{
    match expr {
        Expr::Literal(literal) => literal_outcome(numbers, literal, out),
        Expr::Grouping(inner) => evaluates(numbers, *inner, out),
        Expr::Unary(operator, operand) => exists|value: Outcome<A::Number>|
            evaluates(numbers, *operand, value) && #[trigger] after_operand(
                numbers,
                operator@.kind,
                value,
                out,
            ),
        Expr::Binary(left, operator, right) => exists|l: Outcome<A::Number>, r: Outcome<A::Number>|
            evaluates(numbers, *left, l) && (l is Ok ==> evaluates(numbers, *right, r))
                && #[trigger] after_operands(numbers, operator@.kind, l, r, out),
        Expr::Conditional(condition, then_branch, else_branch) => exists|c: Outcome<A::Number>|
            evaluates(numbers, *condition, c) && match #[trigger] branch_of(c) {
                Branch::Then => evaluates(numbers, *then_branch, out),
                Branch::Else => evaluates(numbers, *else_branch, out),
                Branch::Stop(failure) => out == Err::<Value<A::Number>, LuxError>(failure),
            },
    }
}

/// Whether the arithmetic gives one answer to each question.
pub open spec fn single_valued<A: Arithmetic>(numbers: A) -> bool {
    &&& forall|numeral: Numeral, a: A::Number, b: A::Number|
        #![trigger call_ensures(A::number, (&numbers, &numeral), a), call_ensures(A::number, (&numbers, &numeral), b)]
        call_ensures(A::number, (&numbers, &numeral), a) && call_ensures(
            A::number,
            (&numbers, &numeral),
            b,
        ) ==> a == b
    &&& forall|x: A::Number, a: A::Number, b: A::Number|
        #![trigger call_ensures(A::negate, (&numbers, &x), a), call_ensures(A::negate, (&numbers, &x), b)]
        call_ensures(A::negate, (&numbers, &x), a) && call_ensures(A::negate, (&numbers, &x), b)
            ==> a == b
    &&& forall|kind: TokenType, x: A::Number, y: A::Number, a: A::Number, b: A::Number|
        #![trigger computed(numbers, kind, x, y, a), computed(numbers, kind, x, y, b)]
        computed(numbers, kind, x, y, a) && computed(numbers, kind, x, y, b) ==> a == b
    &&& forall|x: A::Number, y: A::Number, a: Order, b: Order|
        #![trigger call_ensures(A::order, (&numbers, &x, &y), a), call_ensures(A::order, (&numbers, &x, &y), b)]
        call_ensures(A::order, (&numbers, &x, &y), a) && call_ensures(
            A::order,
            (&numbers, &x, &y),
            b,
        ) ==> a == b
}

/// Whether two values are the same: the same text, number or boolean.
pub open spec fn same_value<N>(a: Value<N>, b: Value<N>) -> bool {
    match (a, b) {
        (Value::String(x), Value::String(y)) => x@ == y@,
        (Value::Number(x), Value::Number(y)) => x == y,
        (Value::Boolean(x), Value::Boolean(y)) => x == y,
        _ => false,
    }
}

/// Whether two failures are the same: of the same kind, with the same
/// operator and message where they have them.
pub open spec fn same_failure(a: LuxError, b: LuxError) -> bool {
    match (a, b) {
        (LuxError::Interpreter(k, m), LuxError::Interpreter(l, n)) => k == l && m@ == n@,
        (LuxError::Runtime, LuxError::Runtime) => true,
        (LuxError::Parser(p), LuxError::Parser(q)) => p == q,
        _ => false,
    }
}

/// Whether two evaluations came to the same.
pub open spec fn same_outcome<N>(a: Outcome<N>, b: Outcome<N>) -> bool {
    match (a, b) {
        (Ok(x), Ok(y)) => same_value(x, y),
        (Err(x), Err(y)) => same_failure(x, y),
        _ => false,
    }
}

/// An operator makes the same of the same operand.
proof fn lemma_unary_determined<A: Arithmetic>(
    numbers: A,
    kind: TokenType,
    a: Value<A::Number>,
    b: Value<A::Number>,
    out_a: Outcome<A::Number>,
    out_b: Outcome<A::Number>,
)
    requires
        single_valued(numbers),
        same_value(a, b),
        unary_result(numbers, kind, a, out_a),
        unary_result(numbers, kind, b, out_b),
    ensures
        same_outcome(out_a, out_b),
{
}

/// An operator makes the same of the same operands.
proof fn lemma_binary_determined<A: Arithmetic>(
    numbers: A,
    kind: TokenType,
    la: Value<A::Number>,
    ra: Value<A::Number>,
    lb: Value<A::Number>,
    rb: Value<A::Number>,
    out_a: Outcome<A::Number>,
    out_b: Outcome<A::Number>,
)
    requires
        single_valued(numbers),
        same_value(la, lb),
        same_value(ra, rb),
        binary_result(numbers, kind, la, ra, out_a),
        binary_result(numbers, kind, lb, rb, out_b),
    ensures
        same_outcome(out_a, out_b),
{
}

/// The expression that a shared node holds.
pub open spec fn inside(node: Rc<Expr>) -> Expr {
    *node
}

/// Evaluation is determined: over an arithmetic that gives one answer to
/// each question, an expression comes to one outcome.
pub proof fn lemma_determined<A: Arithmetic>(
    numbers: A,
    expr: Expr,
    out_a: Outcome<A::Number>,
    out_b: Outcome<A::Number>,
)
    requires
        single_valued(numbers),
        evaluates(numbers, expr, out_a),
        evaluates(numbers, expr, out_b),
    ensures
        same_outcome(out_a, out_b),
    decreases expr,
{
    match expr {
        Expr::Literal(literal) => {},
        Expr::Grouping(inner) => {
            lemma_determined(numbers, inside(inner), out_a, out_b);
        },
        Expr::Unary(operator, operand) => {
            let kind = operator@.kind;
            let va = choose|v: Outcome<A::Number>|
                evaluates(numbers, *operand, v) && #[trigger] after_operand(
                    numbers,
                    kind,
                    v,
                    out_a,
                );
            let vb = choose|v: Outcome<A::Number>|
                evaluates(numbers, *operand, v) && #[trigger] after_operand(
                    numbers,
                    kind,
                    v,
                    out_b,
                );
            lemma_determined(numbers, inside(operand), va, vb);
            if va is Ok {
                lemma_unary_determined(
                    numbers,
                    kind,
                    va->Ok_0,
                    vb->Ok_0,
                    out_a,
                    out_b,
                );
            }
        },
        Expr::Binary(left, operator, right) => {
            let kind = operator@.kind;
            let (la, ra) = choose|l: Outcome<A::Number>, r: Outcome<A::Number>|
                evaluates(numbers, *left, l) && (l is Ok ==> evaluates(numbers, *right, r))
                    && #[trigger] after_operands(numbers, kind, l, r, out_a);
            let (lb, rb) = choose|l: Outcome<A::Number>, r: Outcome<A::Number>|
                evaluates(numbers, *left, l) && (l is Ok ==> evaluates(numbers, *right, r))
                    && #[trigger] after_operands(numbers, kind, l, r, out_b);
            lemma_determined(numbers, inside(left), la, lb);
            if la is Ok {
                lemma_determined(numbers, inside(right), ra, rb);
                if ra is Ok {
                    lemma_binary_determined(
                        numbers,
                        kind,
                        la->Ok_0,
                        ra->Ok_0,
                        lb->Ok_0,
                        rb->Ok_0,
                        out_a,
                        out_b,
                    );
                }
            }
        },
        Expr::Conditional(condition, then_branch, else_branch) => {
            let ca = choose|c: Outcome<A::Number>|
                evaluates(numbers, *condition, c) && match #[trigger] branch_of(c) {
                    Branch::Then => evaluates(numbers, *then_branch, out_a),
                    Branch::Else => evaluates(numbers, *else_branch, out_a),
                    Branch::Stop(failure) => out_a == Err::<Value<A::Number>, LuxError>(failure),
                };
            let cb = choose|c: Outcome<A::Number>|
                evaluates(numbers, *condition, c) && match #[trigger] branch_of(c) {
                    Branch::Then => evaluates(numbers, *then_branch, out_b),
                    Branch::Else => evaluates(numbers, *else_branch, out_b),
                    Branch::Stop(failure) => out_b == Err::<Value<A::Number>, LuxError>(failure),
                };
            lemma_determined(numbers, inside(condition), ca, cb);
            match branch_of(ca) {
                Branch::Then => {
                    lemma_determined(numbers, inside(then_branch), out_a, out_b);
                },
                Branch::Else => {
                    lemma_determined(numbers, inside(else_branch), out_a, out_b);
                },
                Branch::Stop(_) => {},
            }
        },
    }
}

/// Of a conditional whose condition is true only the `then` branch counts:
/// the conditional comes to what that branch comes to, whatever stands in
/// the `else` branch.
pub proof fn lemma_then_branch<A: Arithmetic>(
    numbers: A,
    condition: Rc<Expr>,
    then_branch: Rc<Expr>,
    else_branch: Rc<Expr>,
    out: Outcome<A::Number>,
)
    requires
        evaluates(numbers, *condition, Ok(Value::Boolean(true))),
        evaluates(numbers, *then_branch, out),
    ensures
        evaluates(numbers, Expr::Conditional(condition, then_branch, else_branch), out),
{
    let c: Outcome<A::Number> = Ok(Value::Boolean(true));
    assert(branch_of(c) is Then);
}

/// Of a conditional whose condition is false only the `else` branch counts.
pub proof fn lemma_else_branch<A: Arithmetic>(
    numbers: A,
    condition: Rc<Expr>,
    then_branch: Rc<Expr>,
    else_branch: Rc<Expr>,
    out: Outcome<A::Number>,
)
    requires
        evaluates(numbers, *condition, Ok(Value::Boolean(false))),
        evaluates(numbers, *else_branch, out),
    ensures
        evaluates(numbers, Expr::Conditional(condition, then_branch, else_branch), out),
{
    let c: Outcome<A::Number> = Ok(Value::Boolean(false));
    assert(branch_of(c) is Else);
}

/// A failing left operand ends a binary expression: it comes to that
/// failure, whatever its operator and its right operand are.
pub proof fn lemma_left_operand_first<A: Arithmetic>(
    numbers: A,
    left: Rc<Expr>,
    operator: Token,
    right: Rc<Expr>,
    failure: LuxError,
)
    requires
        evaluates(numbers, *left, Err(failure)),
    ensures
        evaluates(numbers, Expr::Binary(left, operator, right), Err(failure)),
{
    let l: Outcome<A::Number> = Err(failure);
    assert(after_operands(numbers, operator@.kind, l, l, l));
}

/// Whether the comparison `kind` holds of a pair that compares as `order`.
pub fn comparison_holds(kind: TokenType, order: Order) -> (r: bool)
    ensures
        r == holds(kind, order),
{
    match kind {
        TokenType::Greater => order == Order::Greater,
        TokenType::GreaterEqual => order == Order::Greater || order == Order::Equal,
        TokenType::Less => order == Order::Less,
        TokenType::LessEqual => order == Order::Less || order == Order::Equal,
        TokenType::EqualEqual => order == Order::Equal,
        _ => order != Order::Equal,
    }
}

/// Evaluates expressions over the numbers of `numbers`.
pub struct Interpreter<A: Arithmetic> {
    pub numbers: A,
}

impl<A: Arithmetic> Interpreter<A> {
    pub fn new(numbers: A) -> (interpreter: Self)
        ensures
            interpreter.numbers == numbers,
    {
        Interpreter { numbers }
    }

    /// Evaluates `expr`.
    pub fn evaluate(&self, expr: &Expr) -> (out: Outcome<A::Number>)
        ensures
            evaluates(self.numbers, *expr, out),
        decreases *expr,
    {
        match expr {
            Expr::Literal(literal) => match literal {
                TokenLiteral::Str(s) => Ok(Value::String(s.clone())),
                TokenLiteral::Num(numeral) => Ok(Value::Number(self.numbers.number(numeral))),
                TokenLiteral::Bool(b) => Ok(Value::Boolean(*b)),
            },
            Expr::Grouping(inner) => self.evaluate(inner),
            Expr::Unary(operator, operand) => {
                let value = self.evaluate(operand);
                let ghost operand_outcome = value;
                let out = match value {
                    Err(failure) => Err(failure),
                    Ok(value) => self.unary(*operator.token_type(), value),
                };
                assert(after_operand(self.numbers, operator@.kind, operand_outcome, out));
                out
            },
            Expr::Binary(left, operator, right) => {
                let l = self.evaluate(left);
                let ghost left_outcome = l;
                match l {
                    Err(failure) => {
                        let out = Err(failure);
                        assert(after_operands(
                            self.numbers,
                            operator@.kind,
                            left_outcome,
                            left_outcome,
                            out,
                        ));
                        out
                    },
                    Ok(l) => {
                        let r = self.evaluate(right);
                        let ghost right_outcome = r;
                        let out = match r {
                            Err(failure) => Err(failure),
                            Ok(r) => self.binary(*operator.token_type(), l, r),
                        };
                        assert(after_operands(
                            self.numbers,
                            operator@.kind,
                            left_outcome,
                            right_outcome,
                            out,
                        ));
                        out
                    },
                }
            },
            Expr::Conditional(condition, then_branch, else_branch) => {
                let c = self.evaluate(condition);
                let ghost condition_outcome = c;
                let out = match c {
                    Ok(Value::Boolean(true)) => self.evaluate(then_branch),
                    Ok(Value::Boolean(false)) => self.evaluate(else_branch),
                    Ok(_) => Err(LuxError::Runtime),
                    Err(failure) => Err(failure),
                };
                assert(branch_of(condition_outcome) is Stop ==> out == Err::<
                    Value<A::Number>,
                    LuxError,
                >(branch_of(condition_outcome)->Stop_0));
                out
            },
        }
    }

    /// Applies the unary operator `kind` to a value.
    pub fn unary(&self, kind: TokenType, operand: Value<A::Number>) -> (out: Outcome<A::Number>)
        ensures
            unary_result(self.numbers, kind, operand, out),
    {
        match kind {
            TokenType::Minus => {
                match self.check_num_operand(TokenType::Minus, &operand) {
                    Err(failure) => Err(failure),
                    Ok(()) => match operand {
                        Value::Number(n) => Ok(Value::Number(self.numbers.negate(&n))),
                        _ => Err(LuxError::Runtime),
                    },
                }
            },
            TokenType::Bang => match operand {
                Value::Boolean(b) => Ok(Value::Boolean(!b)),
                _ => Err(LuxError::Runtime),
            },
            _ => Err(LuxError::Runtime),
        }
    }

    /// Applies the binary operator `kind` to two values.
    pub fn binary(&self, kind: TokenType, left: Value<A::Number>, right: Value<A::Number>) -> (out:
        Outcome<A::Number>)
        ensures
            binary_result(self.numbers, kind, left, right, out),
    {
        match kind {
            TokenType::Plus => match (left, right) {
                (Value::String(a), Value::String(b)) => {
                    let mut joined = a;
                    joined.append(b.as_str());
                    Ok(Value::String(joined))
                },
                (Value::Number(a), Value::Number(b)) => {
                    let n = self.numbers.sum(&a, &b);
                    assert(computed(self.numbers, kind, a, b, n));
                    Ok(Value::Number(n))
                },
                _ => Err(
                    LuxError::Interpreter(
                        TokenType::Plus,
                        "Operand must be either numbers or strings.",
                    ),
                ),
            },
            TokenType::Minus | TokenType::Slash | TokenType::Star => {
                match self.check_num_operands(kind, &left, &right) {
                    Err(failure) => Err(failure),
                    Ok(()) => match (left, right) {
                        (Value::Number(a), Value::Number(b)) => {
                            let n = match kind {
                                TokenType::Minus => self.numbers.difference(&a, &b),
                                TokenType::Star => self.numbers.product(&a, &b),
                                _ => self.numbers.quotient(&a, &b),
                            };
                            assert(computed(self.numbers, kind, a, b, n));
                            Ok(Value::Number(n))
                        },
                        _ => Err(LuxError::Runtime),
                    },
                }
            },
            TokenType::Greater
            | TokenType::GreaterEqual
            | TokenType::Less
            | TokenType::LessEqual
            | TokenType::EqualEqual
            | TokenType::BangEqual => {
                match self.check_num_operands(kind, &left, &right) {
                    Err(failure) => Err(failure),
                    Ok(()) => match (left, right) {
                        (Value::Number(a), Value::Number(b)) => {
                            let order = self.numbers.order(&a, &b);
                            Ok(Value::Boolean(comparison_holds(kind, order)))
                        },
                        _ => Err(LuxError::Runtime),
                    },
                }
            },
            _ => Err(LuxError::Runtime),
        }
    }

    /// Accepts a number; fails for `token` on every other value.
    pub fn check_num_operand(&self, token: TokenType, operand: &Value<A::Number>) -> (r: Result<
        (),
        LuxError,
    >)
        ensures
            r is Ok <==> operand is Number,
            r matches Err(failure) ==> is_mismatch(failure, token, operand_must_be_number()),
    {
        match operand {
            Value::Number(_) => Ok(()),
            _ => Err(LuxError::Interpreter(token, "Operand must be a number.")),
        }
    }

    /// Accepts two numbers; fails for `token` on every other pair.
    pub fn check_num_operands(
        &self,
        token: TokenType,
        left: &Value<A::Number>,
        right: &Value<A::Number>,
    ) -> (r: Result<(), LuxError>)
        ensures
            r is Ok <==> left is Number && right is Number,
            r matches Err(failure) ==> is_mismatch(failure, token, operands_must_be_numbers()),
    {
        match (left, right) {
            (Value::Number(_), Value::Number(_)) => Ok(()),
            _ => Err(LuxError::Interpreter(token, "Operands must be numbers.")),
        }
    }
}

impl<A: Arithmetic> SafeVisitor<Value<A::Number>> for Interpreter<A> {
    fn visit(&self, expr: &Expr) -> (out: Outcome<A::Number>)
        ensures
            evaluates(self.numbers, *expr, out),
    {
        self.evaluate(expr)
    }

    /// The interpreter keeps no state to change: this way in always fails.
    fn visit_mut(&mut self, expr: &Expr) -> (out: Outcome<A::Number>)
        ensures
            out == Err::<Value<A::Number>, LuxError>(LuxError::Runtime),
            *final(self) == *old(self),
    {
        Err(LuxError::Runtime)
    }
}

} // verus!

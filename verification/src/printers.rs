//! Printing an expression in prefix notation, every operation in its own
//! pair of parentheses.

use vstd::prelude::*;
use vstd::string::StringExecFns;
use crate::token::TokenLiteral;
use crate::visitor::Visitor;
use crate::Expr;

verus! {

/// The parts, each with one space before it.
pub open spec fn spaced(parts: Seq<Seq<char>>) -> Seq<char>
    decreases parts.len(),
{
    if parts.len() == 0 {
        Seq::empty()
    } else {
        spaced(parts.drop_last()) + " "@ + parts.last()
    }
}

/// `(name part part ...)`
pub open spec fn parenthesized(name: Seq<char>, parts: Seq<Seq<char>>) -> Seq<char> {
    "("@ + name + spaced(parts) + ")"@
}

/// How a literal is written: a string by its characters, a number by its
/// numeral, a boolean as `true` or `false`.
pub open spec fn rendered_literal(literal: TokenLiteral) -> Seq<char> {
    match literal {
        TokenLiteral::Str(s) => s@,
        TokenLiteral::Num(n) => n@,
        TokenLiteral::Bool(b) => if b {
            "true"@
        } else {
            "false"@
        },
    }
}

/// The prefix notation of an expression: a literal as it is written, a
/// unary or binary operation under its operator's lexeme, a grouping under
/// `group`, a conditional under `?`.
pub open spec fn rendered(expr: Expr) -> Seq<char>
    decreases expr,
{
    match expr {
        Expr::Literal(literal) => rendered_literal(literal),
        Expr::Unary(operator, operand) => parenthesized(
            operator@.lexeme,
            seq![rendered(*operand)],
        ),
        Expr::Binary(left, operator, right) => parenthesized(
            operator@.lexeme,
            seq![rendered(*left), rendered(*right)],
        ),
        Expr::Grouping(inner) => parenthesized("group"@, seq![rendered(*inner)]),
        Expr::Conditional(condition, then_branch, else_branch) => parenthesized(
            "?"@,
            seq![rendered(*condition), rendered(*then_branch), rendered(*else_branch)],
        ),
    }
}

/// Every operation is written in parentheses of its own.
pub proof fn lemma_rendered_in_parentheses(expr: Expr)
    requires
        !(expr is Literal),
    ensures
        rendered(expr).len() >= 2,
        rendered(expr).first() == '(',
        rendered(expr).last() == ')',
{
    reveal_strlit("(");
    reveal_strlit(")");
}

/// Prints expressions in prefix notation.
pub struct AstPrinter;

impl AstPrinter {
    /// The prefix notation of `expr`.
    pub fn print(&self, expr: &Expr) -> (text: String)
        ensures
            text@ == rendered(*expr),
        decreases *expr,
    {
        match expr {
            Expr::Literal(val) => match val {
                TokenLiteral::Str(s) => s.clone(),
                TokenLiteral::Num(n) => String::from_str(n.text()),
                TokenLiteral::Bool(b) => if *b {
                    String::from_str("true")
                } else {
                    String::from_str("false")
                },
            },
            Expr::Unary(token, expr) => {
                let mut parts: Vec<String> = Vec::new();
                parts.push(self.print(expr));
                proof {
                    assert(parts.deep_view() =~= seq![rendered(**expr)]);
                }
                self.parenthesize(token.lexeme(), parts)
            },
            Expr::Binary(left, op, right) => {
                let mut parts: Vec<String> = Vec::new();
                parts.push(self.print(left));
                parts.push(self.print(right));
                proof {
                    assert(parts.deep_view() =~= seq![rendered(**left), rendered(**right)]);
                }
                self.parenthesize(op.lexeme(), parts)
            },
            Expr::Grouping(expr) => {
                let mut parts: Vec<String> = Vec::new();
                parts.push(self.print(expr));
                proof {
                    assert(parts.deep_view() =~= seq![rendered(**expr)]);
                }
                self.parenthesize("group", parts)
            },
            Expr::Conditional(if_ex, then_ex, else_ex) => {
                let mut parts: Vec<String> = Vec::new();
                parts.push(self.print(if_ex));
                parts.push(self.print(then_ex));
                parts.push(self.print(else_ex));
                proof {
                    assert(parts.deep_view() =~= seq![
                        rendered(**if_ex),
                        rendered(**then_ex),
                        rendered(**else_ex),
                    ]);
                }
                self.parenthesize("?", parts)
            },
        }
    }

    /// `name` and the parts, a space before each part, in parentheses.
    pub fn parenthesize(&self, name: &str, parts: Vec<String>) -> (text: String)
        ensures
            text@ == parenthesized(name@, parts.deep_view()),
    {
        let mut val = String::from_str(name);
        let mut i: usize = 0;
        while i < parts.len()
            invariant
                i <= parts.len(),
                val@ == name@ + spaced(parts.deep_view().take(i as int)),
            decreases parts.len() - i,
        {
            proof {
                let all = parts.deep_view();
                assert(all.take(i + 1).drop_last() =~= all.take(i as int));
                assert(all.take(i + 1).last() == parts[i as int]@);
            }
            val.append(" ");
            val.append(parts[i].as_str());
            i += 1;
            proof {
                let all = parts.deep_view();
                assert(val@ =~= name@ + spaced(all.take(i as int)));
            }
        }
        proof {
            assert(parts.deep_view().take(parts.len() as int) =~= parts.deep_view());
        }
        let mut text = String::from_str("(");
        text.append(val.as_str());
        text.append(")");
        proof {
            assert(text@ =~= parenthesized(name@, parts.deep_view()));
        }
        text
    }
}

impl Visitor<String> for AstPrinter {
    fn visit(&self, expr: &Expr) -> (text: String)
        ensures
            text@ == rendered(*expr),
    {
        self.print(expr)
    }

    fn visit_mut(&mut self, expr: &Expr) -> (text: String)
        ensures
            text@ == rendered(*expr),
    {
        self.visit(expr)
    }
}

} // verus!

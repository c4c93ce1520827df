//! The two visitor interfaces over expressions.

use vstd::prelude::*;
use crate::error::LuxError;
use crate::Expr;

verus! {

/// A computation over an expression that always has a result.
pub trait Visitor<R: Sized> {
    fn visit(&self, expr: &Expr) -> R;

    fn visit_mut(&mut self, expr: &Expr) -> R;
}

/// A computation over an expression that may fail.
pub trait SafeVisitor<R: Sized> {
    fn visit(&self, expr: &Expr) -> Result<R, LuxError>;

    fn visit_mut(&mut self, expr: &Expr) -> Result<R, LuxError>;
}

} // verus!

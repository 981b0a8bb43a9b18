//! The syntax fragments that the compilation core reads: spans, calling
//! conventions, declaration bodies, and the expressions of function bodies.
use vstd::prelude::*;
use crate::item::Item;

verus! {

/// A half-open byte range into a source.
#[derive(Clone, Copy, Debug, PartialEq, Eq, Structural)]
pub struct Span {
    pub start: usize,
    pub end: usize,
}

impl Span {
    /// The empty span at the start of a source.
    pub fn empty() -> (r: Span)
        ensures
            r.start == 0 && r.end == 0,
    {
        Span { start: 0, end: 0 }
    }
}

/// Calling convention of a function, closure or async block.
#[derive(Clone, Copy, Debug, PartialEq, Eq, Structural)]
pub enum Call {
    Immediate,
    Async,
    Generator,
    Stream,
}

/// A parameter of a function or closure.
#[derive(Clone, Debug)]
pub enum FnArg {
    /// `self`.
    SelfValue(Span),
    /// A named parameter.
    Ident(String, Span),
    /// `_`.
    Ignore(Span),
}

/// An expression of a function body.
#[derive(Debug)]
pub enum Expr {
    /// An integer literal.
    Integer(i64, Span),
    /// A reference to a local variable.
    Var(String, Span),
    /// A closure expression; the item was assigned when the closure was indexed.
    Closure(Item, Span),
    /// `let name = value; body`.
    Let { name: String, span: Span, value: Box<Expr>, body: Box<Expr> },
    /// A call of the value of the callee, without arguments.
    Call(Box<Expr>, Span),
}

/// A closure expression: parameters and body.
#[derive(Debug)]
pub struct ExprClosure {
    pub args: Vec<FnArg>,
    pub body: Expr,
    pub span: Span,
}

/// A function declaration: parameters and body.
#[derive(Debug)]
pub struct ItemFn {
    pub args: Vec<FnArg>,
    pub body: Expr,
    pub span: Span,
}

/// An async block.
#[derive(Debug)]
pub struct Block {
    pub body: Expr,
    pub span: Span,
}

/// The body of a struct or an enum variant.
#[derive(Clone, Debug)]
pub enum StructBody {
    /// No fields.
    Empty,
    /// Positional fields, by count.
    Tuple(usize),
    /// Named fields.
    Named(Vec<String>),
}

} // verus!

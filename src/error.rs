//! Errors of the compilation core. Every error carries a span.
use vstd::prelude::*;
use crate::ast::Span;
use crate::item::Item;

verus! {

/// The shape of a metadata record, as named in an `ExpectedMeta` error.
#[derive(Clone, Copy, Debug, PartialEq, Eq, Structural)]
pub enum MetaTag {
    Enum,
    Tuple,
    TupleVariant,
    Struct,
    ObjectVariant,
    Function,
    Closure,
    AsyncBlock,
    Const,
}

/// Errors of the constant interpreter.
#[derive(Clone, Copy, Debug, PartialEq, Eq, Structural)]
pub enum IrErrorKind {
    /// The evaluation budget ran out.
    BudgetExceeded,
    /// Division by zero.
    DivideByZero,
    /// A shift by a negative amount.
    NegativeShift,
    /// The result does not fit in a 64-bit signed integer.
    Overflow,
    /// A reference to a local that no enclosing scope declares.
    MissingLocal,
    /// A reference to a constant that is not known.
    MissingConst,
}

/// Errors of the unit under construction.
#[derive(Clone, Copy, Debug, PartialEq, Eq, Structural)]
pub enum UnitBuilderError {
    /// Two functions of the unit have the same hash.
    FunctionConflict { hash: u64 },
}

/// What went wrong.
#[derive(Debug)]
pub enum QueryErrorKind {
    /// The unit could not be assembled.
    UnitBuilderError { error: UnitBuilderError },
    /// The constant interpreter failed.
    IrError { error: IrErrorKind },
    /// The item was declared twice; the error's span is the first declaration.
    ItemConflict { existing: Item },
    /// Two distinct items have the same hash.
    HashConflict { existing: Item },
    /// Metadata was asked for an item that is not declared.
    MissingType { item: Item },
    /// Metadata of another shape than expected was found.
    ExpectedMeta { expected: MetaTag, actual: MetaTag },
    /// `self` among the parameters of a closure.
    UnsupportedSelf,
    /// A variable that no enclosing scope declares.
    VariableNotFound { name: String },
    /// A variable declared twice in the same scope.
    ShadowingInSameScope { name: String },
}

/// An error raised during querying, with the span it points at.
#[derive(Debug)]
pub struct QueryError {
    pub span: Span,
    pub kind: QueryErrorKind,
}

impl QueryError {
    /// Construct a new query error.
    pub fn new(span: Span, kind: QueryErrorKind) -> (r: Self)
        ensures
            r.span == span && r.kind == kind,
    {
        QueryError { span, kind }
    }

    /// Get the kind of the query error.
    pub fn kind(&self) -> (r: &QueryErrorKind)
        ensures
            *r == self.kind,
    {
        &self.kind
    }

    /// Convert into the kind of the query error.
    pub fn into_kind(self) -> (r: QueryErrorKind)
        ensures
            r == self.kind,
    {
        self.kind
    }

    /// The span of the error.
    pub fn span(&self) -> (r: Span)
        ensures
            r == self.span,
    {
        self.span
    }
}

} // verus!

use vstd::prelude::*;

verus! {

/// The construct the parser expected where a `SyntaxErr` was raised.
#[derive(Debug, Clone, Copy, PartialEq, Eq, Structural)]
pub enum Expected {
    /// A parameter type or `)` in the parameter list.
    ParamItem,
    /// A parameter name after a parameter type.
    ParamName,
    /// The `)` closing the parameter list before the input ended.
    CloseParen,
    /// A type name, `,` or `)` inside a return-type tuple.
    RetTupleItem,
    /// The `{` opening the function body.
    OpenBrace,
    /// The `}` closing the function body before the input ended.
    CloseBrace,
}

/// Why a `RetTMisMatch` was raised.
#[derive(Debug, Clone, Copy, PartialEq, Eq, Structural)]
pub enum RetWhy {
    /// The value after `ret` does not parse as the declared type.
    ValueMismatch,
    /// Nothing follows the `ret` keyword.
    MissingValue,
    /// The body's last expression does not parse as the declared type.
    LastExprMismatch,
    /// The declared return type is outside the numeric set this front end
    /// can check.
    Unsupported,
}

/// The closed set of diagnostic kinds. All are recorded without aborting,
/// except `RetTNF`, which is fatal: it stops the whole parse.
#[derive(Debug, Clone, Copy, PartialEq, Eq, Structural)]
pub enum ErrT {
    /// No bare identifier where a function name was expected.
    FuncNameNotFound,
    /// No `(` after the function name.
    ExpectedArgStart,
    /// A type-position token outside the type vocabulary.
    InvVT,
    /// A token in the wrong grammatical position.
    SyntaxErr(Expected),
    /// No `@` clause after the parameter list.
    MissingReturnType,
    /// A return tuple mixes `nil` with other types.
    TupleNil,
    /// The declared return type and the checked return value disagree.
    RetTMisMatch(RetWhy),
    /// Fatal: a body with neither a return statement nor a trailing
    /// expression.
    RetTNF,
}

/// A diagnostic record: the kind and its span — 1-based line, 0-based
/// half-open column range.
#[derive(Debug, Clone, Copy, PartialEq, Eq, Structural)]
pub struct PErr {
    pub et: ErrT,
    pub line: usize,
    pub start: usize,
    pub end: usize,
}

} // verus!

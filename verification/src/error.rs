//! The error model of the parser: an error kind paired with a severity.
//!
//! Severity distinguishes a failure that merely means "this alternative does
//! not apply" (`Error`) from one that means "this is the right alternative
//! but the input is malformed" (`Fatal`). Severity only ever escalates from
//! `Error` to `Fatal`; escalation points return a fresh error value.

use vstd::prelude::*;

use crate::tokens::TextSpan;

verus! {

/// What every parsing function returns: the remaining input and a value on
/// success, a `FrontEndError` on failure.
pub type PResult<'a, O> = Result<(crate::span::Span<'a>, O), FrontEndError>;

/// What went wrong at the combinator level.
#[derive(Copy, Clone, Debug, PartialEq, Eq, Structural)]
pub enum ParseErrorKind {
    /// Asked a span for more tokens than it holds.
    TookTooMany,
    /// Asked a span to skip more tokens than it holds.
    SkippedTooMany,
    /// Asked a span to split past its end.
    IllegalSplitIndex,
    /// The alternative does not apply to this input.
    NoMatch,
    /// A repetition that needs at least one match found none.
    NeededOneOrMore,
    /// A repetition ran out of input before its terminator matched.
    UntilNotMatched,
    /// Input remained after a parser that had to consume it all.
    UnconsumedInput,
    /// A wrapped form was missing its closing tag.
    MissingWrapTerminator,
}

/// How bad a failure is: `Error` lets alternation try the next branch,
/// `Fatal` stops alternation and is reported.
#[derive(Debug, PartialEq, Eq, Structural, Clone, Copy)]
pub enum Severity {
    Error,
    Fatal,
}

/// What went wrong at the grammar level.
#[derive(Debug, Clone, PartialEq)]
pub enum SyntaxErrorKind {
    /// An `if` form needs a predicate and a true branch.
    NotEnoughIf,
    /// An `if` form takes at most three arguments.
    TooManyIf,
    NotEnoughArgs,
    TooManyArgs,
    InvalidArgument,
    /// A particular token was expected; the payload names it.
    Expected(String),
    /// A symbol reference did not resolve; the payload is the name.
    UndefinedSymbol(String),
    /// A binding occurred twice in one scope; the payload is the name.
    DuplicateSymbol(String),
    /// Input remained after the program was parsed.
    Unexpected,
    /// The callee position of an application held a non-callable form.
    IllegalApplication,
}

/// The kind carried by a front-end error: either a combinator-level kind or
/// a grammar-level one.
#[derive(Debug, Clone, PartialEq)]
pub enum FrontEndErrorKind {
    SyntaxError(SyntaxErrorKind),
    ParseError(ParseErrorKind),
}

/// An error of the front end: a kind, a severity, and the source text range
/// it points at.
#[derive(Debug, Clone)]
pub struct FrontEndError {
    pub kind: FrontEndErrorKind,
    pub severity: Severity,
    pub pos: TextSpan,
}

impl FrontEndError {
    /// The error is fatal: alternation must stop and report it.
    pub open spec fn spec_is_fatal(&self) -> bool {
        self.severity is Fatal
    }

    pub fn new(kind: SyntaxErrorKind, pos: TextSpan) -> (r: Self)
        ensures
            r.kind == FrontEndErrorKind::SyntaxError(kind),
            r.severity is Error,
            r.pos == pos,
    {
        FrontEndError { kind: FrontEndErrorKind::SyntaxError(kind), severity: Severity::Error, pos }
    }

    pub fn from_error_kind(kind: ParseErrorKind, severity: Severity, pos: TextSpan) -> (r: Self)
        ensures
            r.kind == FrontEndErrorKind::ParseError(kind),
            r.severity == severity,
            r.pos == pos,
    {
        FrontEndError { kind: FrontEndErrorKind::ParseError(kind), severity, pos }
    }

    /// A fresh error with the same place and severity but another kind.
    pub fn set_kind(self, kind: SyntaxErrorKind) -> (r: Self)
        ensures
            r.kind == FrontEndErrorKind::SyntaxError(kind),
            r.severity == self.severity,
            r.pos == self.pos,
    {
        FrontEndError { kind: FrontEndErrorKind::SyntaxError(kind), ..self }
    }

    /// A fresh error with the same place and severity but another
    /// combinator-level kind.
    pub fn change_kind(self, kind: ParseErrorKind) -> (r: Self)
        ensures
            r.kind == FrontEndErrorKind::ParseError(kind),
            r.severity == self.severity,
            r.pos == self.pos,
    {
        FrontEndError { kind: FrontEndErrorKind::ParseError(kind), ..self }
    }

    /// A fresh error escalated to the given severity. Severity never goes
    /// back down: escalating an already fatal error leaves it fatal.
    pub fn set_severity(self, severity: Severity) -> (r: Self)
        ensures
            r.kind == self.kind,
            r.pos == self.pos,
            r.severity is Fatal <==> (severity is Fatal || self.severity is Fatal),
    {
        match (severity, &self.severity) {
            (Severity::Error, Severity::Fatal) => self,
            _ => FrontEndError { severity, ..self },
        }
    }

    pub fn severity(&self) -> (r: Severity)
        ensures
            r == self.severity,
    {
        self.severity
    }

    pub fn is_fatal(&self) -> (r: bool)
        ensures
            r == self.spec_is_fatal(),
    {
        match self.severity {
            Severity::Fatal => true,
            Severity::Error => false,
        }
    }
}

} // verus!

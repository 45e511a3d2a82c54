//! The diagnostics model: a closed set of error, warning and hint kinds,
//! each rendering to a message and severity, paired with a source range.
//!
//! Every detected condition becomes one [`Diagnostic`] value; the analysis
//! never stops or unwinds because of one.

use vstd::prelude::*;

use crate::position::Range;

verus! {

/// Severity of a diagnostic, mirroring the editor protocol's levels.
#[derive(Clone, Copy, Debug, PartialEq, Eq, Structural)]
pub enum Severity {
    Error,
    Warning,
    Hint,
}

/// Presentation tag attached to a diagnostic; `Unnecessary` marks code that
/// an editor may render struck through or faded.
#[derive(Clone, Copy, Debug, PartialEq, Eq, Structural)]
pub enum DiagnosticTag {
    Unnecessary,
}

/// Error-severity conditions.
#[derive(Debug, Clone)]
pub enum ErrorKind {
    SyntaxError,
    Unexpected,
    ExpectedExpr,
    ExpectedField,
    Missing(String),
    UndelimitedStr,
    Redeclaration(String),
    InvalidName,
    Undeclared(String),
    ContinueOutside,
    BreakOutside,
    ReturnOutside,
}

/// Warning-severity conditions.
#[derive(Debug, Clone)]
pub enum WarnKind {
    UnusedResult,
}

/// Hint-severity conditions.
#[derive(Debug, Clone)]
pub enum HintKind {
    Unreachable,
    EmptyMatch,
    Unused(String),
    Assign,
}

/// Mathematical form of [`ErrorKind`]: payloads are character sequences.
pub ghost enum ErrorKindV {
    SyntaxError,
    Unexpected,
    ExpectedExpr,
    ExpectedField,
    Missing(Seq<char>),
    UndelimitedStr,
    Redeclaration(Seq<char>),
    InvalidName,
    Undeclared(Seq<char>),
    ContinueOutside,
    BreakOutside,
    ReturnOutside,
}

/// Mathematical form of [`HintKind`].
pub ghost enum HintKindV {
    Unreachable,
    EmptyMatch,
    Unused(Seq<char>),
    Assign,
}

impl View for ErrorKind {
    type V = ErrorKindV;

    open spec fn view(&self) -> ErrorKindV {
        match self {
            ErrorKind::SyntaxError => ErrorKindV::SyntaxError,
            ErrorKind::Unexpected => ErrorKindV::Unexpected,
            ErrorKind::ExpectedExpr => ErrorKindV::ExpectedExpr,
            ErrorKind::ExpectedField => ErrorKindV::ExpectedField,
            ErrorKind::Missing(s) => ErrorKindV::Missing(s@),
            ErrorKind::UndelimitedStr => ErrorKindV::UndelimitedStr,
            ErrorKind::Redeclaration(s) => ErrorKindV::Redeclaration(s@),
            ErrorKind::InvalidName => ErrorKindV::InvalidName,
            ErrorKind::Undeclared(s) => ErrorKindV::Undeclared(s@),
            ErrorKind::ContinueOutside => ErrorKindV::ContinueOutside,
            ErrorKind::BreakOutside => ErrorKindV::BreakOutside,
            ErrorKind::ReturnOutside => ErrorKindV::ReturnOutside,
        }
    }
}

impl View for HintKind {
    type V = HintKindV;

    open spec fn view(&self) -> HintKindV {
        match self {
            HintKind::Unreachable => HintKindV::Unreachable,
            HintKind::EmptyMatch => HintKindV::EmptyMatch,
            HintKind::Unused(s) => HintKindV::Unused(s@),
            HintKind::Assign => HintKindV::Assign,
        }
    }
}

/// The message that each error kind renders to.
pub open spec fn error_message(kind: ErrorKindV) -> Seq<char> {
    match kind {
        ErrorKindV::SyntaxError => "Syntax error"@,
        ErrorKindV::Unexpected => "Unexpected token"@,
        ErrorKindV::ExpectedExpr => "Expected expression"@,
        ErrorKindV::ExpectedField => "Expected field name"@,
        ErrorKindV::UndelimitedStr => "Undelimited string"@,
        ErrorKindV::Missing(s) => "Missing '"@ + s + "'"@,
        ErrorKindV::Redeclaration(s) => "Redeclaring existing identifier '"@ + s + "'"@,
        ErrorKindV::InvalidName => "Invalid identifier name"@,
        ErrorKindV::Undeclared(s) => "Undeclared identifier '"@ + s + "'"@,
        ErrorKindV::ContinueOutside => "continue outside of a loop"@,
        ErrorKindV::BreakOutside => "break outside of a loop"@,
        ErrorKindV::ReturnOutside => "return outside of a function"@,
    }
}

/// The message that each warning kind renders to.
pub open spec fn warn_message(kind: WarnKind) -> Seq<char> {
    match kind {
        WarnKind::UnusedResult => "Unused result"@,
    }
}

/// The message that each hint kind renders to.
pub open spec fn hint_message(kind: HintKindV) -> Seq<char> {
    match kind {
        HintKindV::Unreachable => "Unreachable code"@,
        HintKindV::EmptyMatch => "Empty match expression"@,
        HintKindV::Unused(s) => "'"@ + s + "' is never used"@,
        HintKindV::Assign => "Consider assigning the resulting value"@,
    }
}

/// The fixed string naming this analyzer in published diagnostics.
pub open spec fn source_name() -> Seq<char> {
    "icelang_ls"@
}

/// One reported condition: a range, a severity, a rendered message, the
/// analyzer's source tag, and optional presentation tags.
#[derive(Debug, Clone)]
pub struct Diagnostic {
    pub range: Range,
    pub severity: Severity,
    pub message: String,
    pub source: String,
    pub tags: Option<Vec<DiagnosticTag>>,
}

/// Mathematical form of [`Diagnostic`].
pub ghost struct DiagV {
    pub range: Range,
    pub severity: Severity,
    pub message: Seq<char>,
    pub source: Seq<char>,
    pub tags: Option<Seq<DiagnosticTag>>,
}

impl View for Diagnostic {
    type V = DiagV;

    open spec fn view(&self) -> DiagV {
        DiagV {
            range: self.range,
            severity: self.severity,
            message: self.message@,
            source: self.source@,
            tags: match self.tags {
                Some(v) => Some(v@),
                None => None,
            },
        }
    }
}

/// The diagnostic that [`error`] builds for a kind and range.
pub open spec fn error_diag(kind: ErrorKindV, range: Range) -> DiagV {
    DiagV {
        range,
        severity: Severity::Error,
        message: error_message(kind),
        source: source_name(),
        tags: None,
    }
}

/// The diagnostic that [`warn`] builds for a kind and range.
pub open spec fn warn_diag(kind: WarnKind, range: Range) -> DiagV {
    DiagV {
        range,
        severity: Severity::Warning,
        message: warn_message(kind),
        source: source_name(),
        tags: None,
    }
}

/// The diagnostic that [`hint`] builds for a kind and range: every hint
/// carries the `Unnecessary` presentation tag.
pub open spec fn hint_diag(kind: HintKindV, range: Range) -> DiagV {
    DiagV {
        range,
        severity: Severity::Hint,
        message: hint_message(kind),
        source: source_name(),
        tags: Some(seq![DiagnosticTag::Unnecessary]),
    }
}

impl ErrorKind {
    /// Renders this kind's message.
    pub fn message(&self) -> (r: String)
        ensures
            r@ == error_message(self@),
    {
        match self {
            ErrorKind::SyntaxError => "Syntax error".to_owned(),
            ErrorKind::Unexpected => "Unexpected token".to_owned(),
            ErrorKind::ExpectedExpr => "Expected expression".to_owned(),
            ErrorKind::ExpectedField => "Expected field name".to_owned(),
            ErrorKind::UndelimitedStr => "Undelimited string".to_owned(),
            ErrorKind::Missing(s) => {
                let mut m = "Missing '".to_owned();
                m.append(s.as_str());
                m.append("'");
                m
            },
            ErrorKind::Redeclaration(s) => {
                let mut m = "Redeclaring existing identifier '".to_owned();
                m.append(s.as_str());
                m.append("'");
                m
            },
            ErrorKind::InvalidName => "Invalid identifier name".to_owned(),
            ErrorKind::Undeclared(s) => {
                let mut m = "Undeclared identifier '".to_owned();
                m.append(s.as_str());
                m.append("'");
                m
            },
            ErrorKind::ContinueOutside => "continue outside of a loop".to_owned(),
            ErrorKind::BreakOutside => "break outside of a loop".to_owned(),
            ErrorKind::ReturnOutside => "return outside of a function".to_owned(),
        }
    }
}

impl WarnKind {
    /// Renders this kind's message.
    pub fn message(&self) -> (r: String)
        ensures
            r@ == warn_message(*self),
    {
        match self {
            WarnKind::UnusedResult => "Unused result".to_owned(),
        }
    }
}

impl HintKind {
    /// Renders this kind's message.
    pub fn message(&self) -> (r: String)
        ensures
            r@ == hint_message(self@),
    {
        match self {
            HintKind::Unreachable => "Unreachable code".to_owned(),
            HintKind::EmptyMatch => "Empty match expression".to_owned(),
            HintKind::Unused(s) => {
                let mut m = "'".to_owned();
                m.append(s.as_str());
                m.append("' is never used");
                m
            },
            HintKind::Assign => "Consider assigning the resulting value".to_owned(),
        }
    }
}

/// Builds an error-severity diagnostic for the given kind and range.
pub fn error(kind: ErrorKind, range: Range) -> (r: Diagnostic)
    ensures
        r@ == error_diag(kind@, range),
{
    let message = kind.message();
    Diagnostic {
        range,
        severity: Severity::Error,
        message,
        source: "icelang_ls".to_owned(),
        tags: None,
    }
}

/// Builds a warning-severity diagnostic for the given kind and range.
pub fn warn(kind: WarnKind, range: Range) -> (r: Diagnostic)
    ensures
        r@ == warn_diag(kind, range),
{
    let message = kind.message();
    Diagnostic {
        range,
        severity: Severity::Warning,
        message,
        source: "icelang_ls".to_owned(),
        tags: None,
    }
}

/// Builds a hint-severity diagnostic for the given kind and range, tagged
/// `Unnecessary`.
pub fn hint(kind: HintKind, range: Range) -> (r: Diagnostic)
    ensures
        r@ == hint_diag(kind@, range),
{
    let message = kind.message();
    let tags: Vec<DiagnosticTag> = vec![DiagnosticTag::Unnecessary];
    let d = Diagnostic {
        range,
        severity: Severity::Hint,
        message,
        source: "icelang_ls".to_owned(),
        tags: Some(tags),
    };
    proof {
        assert(d@.tags == Some(seq![DiagnosticTag::Unnecessary]));
    }
    d
}

} // verus!

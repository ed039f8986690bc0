use vstd::prelude::*;

use crate::span::Span;

verus! {

/// Decimal digits of a number.
pub open spec fn digit_text(d: nat) -> Seq<char> {
    if d == 0 {
        "0"@
    } else if d == 1 {
        "1"@
    } else if d == 2 {
        "2"@
    } else if d == 3 {
        "3"@
    } else if d == 4 {
        "4"@
    } else if d == 5 {
        "5"@
    } else if d == 6 {
        "6"@
    } else if d == 7 {
        "7"@
    } else if d == 8 {
        "8"@
    } else {
        "9"@
    }
}

pub open spec fn decimal(n: nat) -> Seq<char>
    decreases n,
{
    if n < 10 {
        digit_text(n)
    } else {
        decimal(n / 10) + digit_text(n % 10)
    }
}

fn digit_str(d: usize) -> (s: &'static str)
    requires
        d < 10,
    ensures
        s@ == digit_text(d as nat),
{
    if d == 0 {
        "0"
    } else if d == 1 {
        "1"
    } else if d == 2 {
        "2"
    } else if d == 3 {
        "3"
    } else if d == 4 {
        "4"
    } else if d == 5 {
        "5"
    } else if d == 6 {
        "6"
    } else if d == 7 {
        "7"
    } else if d == 8 {
        "8"
    } else {
        "9"
    }
}

/// The decimal representation of a number.
pub fn to_decimal(n: usize) -> (s: String)
    ensures
        s@ == decimal(n as nat),
    decreases n,
{
    if n < 10 {
        String::from_str(digit_str(n))
    } else {
        let mut s = to_decimal(n / 10);
        s.append(digit_str(n % 10));
        s
    }
}

/// The errors the checker reports.
#[derive(Debug)]
pub enum CheckerDiagnostic {
    UndefinedFunction { span: Span, name: String },
    ArgumentCountMismatch { span: Span, expected: String, found: String },
    TypeMismatch { span: Span, expected: String, found: String },
    InvalidMainSignature { span: Span },
    NoMainFunction { span: Span },
    UnknownType { span: Span, name: String },
    DuplicateFunction { span: Span, name: String },
    UndefinedVariable { span: Span, name: String },
    ImmutableAssignment { span: Span, name: String },
    InvalidOperatorType { span: Span, op: String, ty: String },
    ReturnTypeMismatch { span: Span, expected: String, found: String },
    UnknownParameterName { span: Span, name: String },
    MissingRequiredArgument { span: Span, name: String },
    UndefinedMethod { span: Span, ty: String, method: String },
    MutatingMethodOnImmutable { span: Span, method: String },
    UnknownField { span: Span, name: String, field: String },
    MissingField { span: Span, name: String, field: String },
    FieldAccessOnNonStruct { span: Span, ty: String },
    UndefinedStruct { span: Span, name: String },
    DuplicateStruct { span: Span, name: String },
}

/// The kinds of diagnostics, without their payload.
#[derive(Clone, Copy, Debug, PartialEq, Eq, Structural)]
pub enum DiagnosticKind {
    UndefinedFunction,
    ArgumentCountMismatch,
    TypeMismatch,
    InvalidMainSignature,
    NoMainFunction,
    UnknownType,
    DuplicateFunction,
    UndefinedVariable,
    ImmutableAssignment,
    InvalidOperatorType,
    ReturnTypeMismatch,
    UnknownParameterName,
    MissingRequiredArgument,
    UndefinedMethod,
    MutatingMethodOnImmutable,
    UnknownField,
    MissingField,
    FieldAccessOnNonStruct,
    UndefinedStruct,
    DuplicateStruct,
}

pub open spec fn quoted(s: Seq<char>) -> Seq<char> {
    "'"@ + s + "'"@
}

impl CheckerDiagnostic {
    pub open spec fn kind_of(&self) -> DiagnosticKind {
        match self {
            CheckerDiagnostic::UndefinedFunction { .. } => DiagnosticKind::UndefinedFunction,
            CheckerDiagnostic::ArgumentCountMismatch { .. } => DiagnosticKind::ArgumentCountMismatch,
            CheckerDiagnostic::TypeMismatch { .. } => DiagnosticKind::TypeMismatch,
            CheckerDiagnostic::InvalidMainSignature { .. } => DiagnosticKind::InvalidMainSignature,
            CheckerDiagnostic::NoMainFunction { .. } => DiagnosticKind::NoMainFunction,
            CheckerDiagnostic::UnknownType { .. } => DiagnosticKind::UnknownType,
            CheckerDiagnostic::DuplicateFunction { .. } => DiagnosticKind::DuplicateFunction,
            CheckerDiagnostic::UndefinedVariable { .. } => DiagnosticKind::UndefinedVariable,
            CheckerDiagnostic::ImmutableAssignment { .. } => DiagnosticKind::ImmutableAssignment,
            CheckerDiagnostic::InvalidOperatorType { .. } => DiagnosticKind::InvalidOperatorType,
            CheckerDiagnostic::ReturnTypeMismatch { .. } => DiagnosticKind::ReturnTypeMismatch,
            CheckerDiagnostic::UnknownParameterName { .. } => DiagnosticKind::UnknownParameterName,
            CheckerDiagnostic::MissingRequiredArgument { .. } => DiagnosticKind::MissingRequiredArgument,
            CheckerDiagnostic::UndefinedMethod { .. } => DiagnosticKind::UndefinedMethod,
            CheckerDiagnostic::MutatingMethodOnImmutable { .. } => DiagnosticKind::MutatingMethodOnImmutable,
            CheckerDiagnostic::UnknownField { .. } => DiagnosticKind::UnknownField,
            CheckerDiagnostic::MissingField { .. } => DiagnosticKind::MissingField,
            CheckerDiagnostic::FieldAccessOnNonStruct { .. } => DiagnosticKind::FieldAccessOnNonStruct,
            CheckerDiagnostic::UndefinedStruct { .. } => DiagnosticKind::UndefinedStruct,
            CheckerDiagnostic::DuplicateStruct { .. } => DiagnosticKind::DuplicateStruct,
        }
    }

    /// The text shown for the diagnostic.
    pub open spec fn message_text(&self) -> Seq<char> {
        match self {
            CheckerDiagnostic::UndefinedFunction { name, .. } => "undefined function "@ + quoted(
                name@,
            ),
            CheckerDiagnostic::ArgumentCountMismatch { expected, found, .. } => "expected "@
                + expected@ + " argument(s), found "@ + found@,
            CheckerDiagnostic::TypeMismatch { expected, found, .. } => "type mismatch: expected "@
                + quoted(expected@) + ", found "@ + quoted(found@),
            CheckerDiagnostic::InvalidMainSignature { .. } =>
                "'main' function must take no parameters and return ()"@,
            CheckerDiagnostic::NoMainFunction { .. } => "no 'main' function found"@,
            CheckerDiagnostic::UnknownType { name, .. } => "unknown type "@ + quoted(name@),
            CheckerDiagnostic::DuplicateFunction { name, .. } => "duplicate function "@ + quoted(
                name@,
            ),
            CheckerDiagnostic::UndefinedVariable { name, .. } => "undefined variable "@ + quoted(
                name@,
            ),
            CheckerDiagnostic::ImmutableAssignment { name, .. } =>
                "cannot assign to immutable variable "@ + quoted(name@),
            CheckerDiagnostic::InvalidOperatorType { op, ty, .. } => "operator "@ + quoted(op@)
                + " cannot be applied to type "@ + quoted(ty@),
            CheckerDiagnostic::ReturnTypeMismatch { expected, found, .. } =>
                "expected return type "@ + quoted(expected@) + ", found "@ + quoted(found@),
            CheckerDiagnostic::UnknownParameterName { name, .. } => "unknown parameter name "@
                + quoted(name@),
            CheckerDiagnostic::MissingRequiredArgument { name, .. } =>
                "missing required argument "@ + quoted(name@),
            CheckerDiagnostic::UndefinedMethod { ty, method, .. } => "no method "@ + quoted(
                method@,
            ) + " on type "@ + quoted(ty@),
            CheckerDiagnostic::MutatingMethodOnImmutable { method, .. } =>
                "cannot call mutating method "@ + quoted(method@) + " on immutable binding"@,
            CheckerDiagnostic::UnknownField { name, field, .. } => "struct "@ + quoted(name@)
                + " has no field "@ + quoted(field@),
            CheckerDiagnostic::MissingField { name, field, .. } => "missing field "@ + quoted(
                field@,
            ) + " in struct "@ + quoted(name@),
            CheckerDiagnostic::FieldAccessOnNonStruct { ty, .. } => "field access on non-struct type "@
                + quoted(ty@),
            CheckerDiagnostic::UndefinedStruct { name, .. } => "undefined struct "@ + quoted(
                name@,
            ),
            CheckerDiagnostic::DuplicateStruct { name, .. } => "duplicate type "@ + quoted(name@),
        }
    }

    /// Where the diagnostic points.
    pub open spec fn span_of(&self) -> Span {
        match self {
            CheckerDiagnostic::UndefinedFunction { span, .. } => *span,
            CheckerDiagnostic::ArgumentCountMismatch { span, .. } => *span,
            CheckerDiagnostic::TypeMismatch { span, .. } => *span,
            CheckerDiagnostic::InvalidMainSignature { span } => *span,
            CheckerDiagnostic::NoMainFunction { span } => *span,
            CheckerDiagnostic::UnknownType { span, .. } => *span,
            CheckerDiagnostic::DuplicateFunction { span, .. } => *span,
            CheckerDiagnostic::UndefinedVariable { span, .. } => *span,
            CheckerDiagnostic::ImmutableAssignment { span, .. } => *span,
            CheckerDiagnostic::InvalidOperatorType { span, .. } => *span,
            CheckerDiagnostic::ReturnTypeMismatch { span, .. } => *span,
            CheckerDiagnostic::UnknownParameterName { span, .. } => *span,
            CheckerDiagnostic::MissingRequiredArgument { span, .. } => *span,
            CheckerDiagnostic::UndefinedMethod { span, .. } => *span,
            CheckerDiagnostic::MutatingMethodOnImmutable { span, .. } => *span,
            CheckerDiagnostic::UnknownField { span, .. } => *span,
            CheckerDiagnostic::MissingField { span, .. } => *span,
            CheckerDiagnostic::FieldAccessOnNonStruct { span, .. } => *span,
            CheckerDiagnostic::UndefinedStruct { span, .. } => *span,
            CheckerDiagnostic::DuplicateStruct { span, .. } => *span,
        }
    }

    pub fn span(&self) -> (s: Span)
        ensures
            s == self.span_of(),
    {
        match self {
            CheckerDiagnostic::UndefinedFunction { span, .. } => *span,
            CheckerDiagnostic::ArgumentCountMismatch { span, .. } => *span,
            CheckerDiagnostic::TypeMismatch { span, .. } => *span,
            CheckerDiagnostic::InvalidMainSignature { span } => *span,
            CheckerDiagnostic::NoMainFunction { span } => *span,
            CheckerDiagnostic::UnknownType { span, .. } => *span,
            CheckerDiagnostic::DuplicateFunction { span, .. } => *span,
            CheckerDiagnostic::UndefinedVariable { span, .. } => *span,
            CheckerDiagnostic::ImmutableAssignment { span, .. } => *span,
            CheckerDiagnostic::InvalidOperatorType { span, .. } => *span,
            CheckerDiagnostic::ReturnTypeMismatch { span, .. } => *span,
            CheckerDiagnostic::UnknownParameterName { span, .. } => *span,
            CheckerDiagnostic::MissingRequiredArgument { span, .. } => *span,
            CheckerDiagnostic::UndefinedMethod { span, .. } => *span,
            CheckerDiagnostic::MutatingMethodOnImmutable { span, .. } => *span,
            CheckerDiagnostic::UnknownField { span, .. } => *span,
            CheckerDiagnostic::MissingField { span, .. } => *span,
            CheckerDiagnostic::FieldAccessOnNonStruct { span, .. } => *span,
            CheckerDiagnostic::UndefinedStruct { span, .. } => *span,
            CheckerDiagnostic::DuplicateStruct { span, .. } => *span,
        }
    }

    /// The text shown for the diagnostic.
    pub fn message(&self) -> (m: String)
        ensures
            m@ == self.message_text(),
    {
        match self {
            CheckerDiagnostic::UndefinedFunction { name, .. } => {
                let mut m = String::from_str("undefined function ");
                push_quoted(&mut m, name);
                m
            },
            CheckerDiagnostic::ArgumentCountMismatch { expected, found, .. } => {
                let mut m = String::from_str("expected ");
                m.append(expected.as_str());
                m.append(" argument(s), found ");
                m.append(found.as_str());
                m
            },
            CheckerDiagnostic::TypeMismatch { expected, found, .. } => {
                let mut m = String::from_str("type mismatch: expected ");
                push_quoted(&mut m, expected);
                m.append(", found ");
                push_quoted(&mut m, found);
                m
            },
            CheckerDiagnostic::InvalidMainSignature { .. } => String::from_str(
                "'main' function must take no parameters and return ()",
            ),
            CheckerDiagnostic::NoMainFunction { .. } => String::from_str(
                "no 'main' function found",
            ),
            CheckerDiagnostic::UnknownType { name, .. } => {
                let mut m = String::from_str("unknown type ");
                push_quoted(&mut m, name);
                m
            },
            CheckerDiagnostic::DuplicateFunction { name, .. } => {
                let mut m = String::from_str("duplicate function ");
                push_quoted(&mut m, name);
                m
            },
            CheckerDiagnostic::UndefinedVariable { name, .. } => {
                let mut m = String::from_str("undefined variable ");
                push_quoted(&mut m, name);
                m
            },
            CheckerDiagnostic::ImmutableAssignment { name, .. } => {
                let mut m = String::from_str("cannot assign to immutable variable ");
                push_quoted(&mut m, name);
                m
            },
            CheckerDiagnostic::InvalidOperatorType { op, ty, .. } => {
                let mut m = String::from_str("operator ");
                push_quoted(&mut m, op);
                m.append(" cannot be applied to type ");
                push_quoted(&mut m, ty);
                m
            },
            CheckerDiagnostic::ReturnTypeMismatch { expected, found, .. } => {
                let mut m = String::from_str("expected return type ");
                push_quoted(&mut m, expected);
                m.append(", found ");
                push_quoted(&mut m, found);
                m
            },
            CheckerDiagnostic::UnknownParameterName { name, .. } => {
                let mut m = String::from_str("unknown parameter name ");
                push_quoted(&mut m, name);
                m
            },
            CheckerDiagnostic::MissingRequiredArgument { name, .. } => {
                let mut m = String::from_str("missing required argument ");
                push_quoted(&mut m, name);
                m
            },
            CheckerDiagnostic::UndefinedMethod { ty, method, .. } => {
                let mut m = String::from_str("no method ");
                push_quoted(&mut m, method);
                m.append(" on type ");
                push_quoted(&mut m, ty);
                m
            },
            CheckerDiagnostic::MutatingMethodOnImmutable { method, .. } => {
                let mut m = String::from_str("cannot call mutating method ");
                push_quoted(&mut m, method);
                m.append(" on immutable binding");
                m
            },
            CheckerDiagnostic::UnknownField { name, field, .. } => {
                let mut m = String::from_str("struct ");
                push_quoted(&mut m, name);
                m.append(" has no field ");
                push_quoted(&mut m, field);
                m
            },
            CheckerDiagnostic::MissingField { name, field, .. } => {
                let mut m = String::from_str("missing field ");
                push_quoted(&mut m, field);
                m.append(" in struct ");
                push_quoted(&mut m, name);
                m
            },
            CheckerDiagnostic::FieldAccessOnNonStruct { ty, .. } => {
                let mut m = String::from_str("field access on non-struct type ");
                push_quoted(&mut m, ty);
                m
            },
            CheckerDiagnostic::UndefinedStruct { name, .. } => {
                let mut m = String::from_str("undefined struct ");
                push_quoted(&mut m, name);
                m
            },
            CheckerDiagnostic::DuplicateStruct { name, .. } => {
                let mut m = String::from_str("duplicate type ");
                push_quoted(&mut m, name);
                m
            },
        }
    }
}

fn push_quoted(m: &mut String, s: &String)
    ensures
        final(m)@ == old(m)@ + quoted(s@),
{
    m.append("'");
    m.append(s.as_str());
    m.append("'");
    assert(final(m)@ =~= old(m)@ + quoted(s@));
}

/// A diagnostic as shown to the user.
#[derive(Debug)]
pub struct Report {
    pub message: String,
    pub span: Span,
}

/// The diagnostics of one run of the checker, in the order they were found.
#[derive(Debug)]
pub struct DiagnosticBag {
    pub diagnostics: Vec<CheckerDiagnostic>,
}

impl DiagnosticBag {
    pub fn new() -> (b: Self)
        ensures
            b.diagnostics@ == Seq::<CheckerDiagnostic>::empty(),
    {
        DiagnosticBag { diagnostics: Vec::new() }
    }

    pub fn add(&mut self, d: CheckerDiagnostic)
        ensures
            final(self).diagnostics@ == old(self).diagnostics@.push(d),
    {
        self.diagnostics.push(d);
    }

    /// Every checker diagnostic is an error.
    pub fn has_errors(&self) -> (r: bool)
        ensures
            r == (self.diagnostics@.len() > 0),
    {
        self.diagnostics.len() > 0
    }

    /// The reports, one per diagnostic, in order.
    pub fn reports(&self) -> (r: Vec<Report>)
        ensures
            r@.len() == self.diagnostics@.len(),
            forall|i: int|
                0 <= i < r@.len() ==> #[trigger] r@[i].message@ == self.diagnostics@[i].message_text(),
    {
        let mut r: Vec<Report> = Vec::new();
        let mut i: usize = 0;
        while i < self.diagnostics.len()
            invariant
                i <= self.diagnostics@.len(),
                r@.len() == i,
                forall|j: int|
                    0 <= j < i ==> #[trigger] r@[j].message@ == self.diagnostics@[j].message_text(),
            decreases self.diagnostics@.len() - i,
        {
            let d = &self.diagnostics[i];
            r.push(Report { message: d.message(), span: d.span() });
            i = i + 1;
        }
        r
    }
}

} // verus!

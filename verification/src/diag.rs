//! Diagnostics.
//!
//! The compilation collects diagnostics in encounter order; nothing here
//! performs output. Each diagnostic carries a severity, a machine-readable
//! kind, and, where known, the span it points at.

use vstd::prelude::*;

use crate::hir::{Name, NodeId};
use crate::source::Span;

verus! {

/// How bad a diagnostic is.
#[derive(Debug, Clone, Copy, PartialEq, Eq, Structural)]
pub enum Severity {
    /// Ends useful output.
    Fatal,
    /// Wrong input; best-effort continuation.
    Error,
    /// Suspicious input.
    Warning,
    /// Informational.
    Note,
}

/// What a diagnostic reports.
#[derive(Debug, Clone, Copy, PartialEq, Eq, Structural)]
pub enum DiagKind {
    /// An instantiation names a module that does not exist.
    UnknownModule(Name),
    /// More positional parameters than the module declares.
    SuperfluousParam,
    /// A named parameter binding names no overridable parameter.
    UnknownParamName(Name),
    /// Two bindings name the same parameter.
    DuplicateParamBinding(Name),
    /// A parameter is neither bound nor carries a default.
    UnboundParam(Name),
    /// A type parameter was bound to a value, or a value parameter to a
    /// type.
    ParamKindMismatch,
    /// An identifier in a constant expression resolves to nothing.
    UnresolvedIdent(Name),
    /// A typed HIR lookup found a node of the wrong kind: a compiler bug.
    InternalBug,
    /// Resolved instantiation details, reported by the verbosity visitor.
    InstNote(NodeId),
}

/// One diagnostic.
#[derive(Debug, Clone, Copy, PartialEq, Eq, Structural)]
pub struct Diagnostic {
    /// How bad it is.
    pub severity: Severity,
    /// What it reports.
    pub kind: DiagKind,
    /// Where it points, if known.
    pub span: Option<Span>,
}

impl Diagnostic {
    /// An error diagnostic at a span.
    pub fn error(kind: DiagKind, span: Span) -> (r: Diagnostic)
        ensures
            r == (Diagnostic { severity: Severity::Error, kind, span: Some(span) }),
    {
        Diagnostic { severity: Severity::Error, kind, span: Some(span) }
    }

    /// A note diagnostic at a span.
    pub fn note(kind: DiagKind, span: Span) -> (r: Diagnostic)
        ensures
            r == (Diagnostic { severity: Severity::Note, kind, span: Some(span) }),
    {
        Diagnostic { severity: Severity::Note, kind, span: Some(span) }
    }
}

} // verus!

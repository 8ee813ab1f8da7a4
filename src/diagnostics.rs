//! The structured diagnostics that generation accumulates.
use vstd::prelude::*;

verus! {

/// Where a diagnostic arose: the operation's name and its URL path.
#[derive(Clone, Debug)]
pub struct DiagnosticContext {
    pub operation: String,
    pub path: String,
}

/// The schema compositions that generation does not synthesize.
#[derive(Clone, Copy, Debug, PartialEq, Eq, Structural)]
pub enum UnsupportedKind {
    OneOf,
    AnyOf,
    Not,
    Any,
}

/// One diagnostic. Each names what went wrong and carries enough context to
/// find it; none of them stops generation.
#[derive(Debug)]
pub enum HeaveError {
    MalformedParameterReference { context: DiagnosticContext, reference: String },
    MissingComponents,
    MissingParameterReference { context: DiagnosticContext, reference: String },
    MalformedRequestBodyReference { context: DiagnosticContext, reference: String },
    MissingRequestBodyReference { context: DiagnosticContext, reference: String },
    FailedRequestBodyDereference { context: DiagnosticContext, reference: String },
    MissingApplicationJsonRequestBodyMediaType { context: DiagnosticContext },
    MissingApplicationJsonResponseBodyMediaType { context: DiagnosticContext },
    MissingSchemaDefinitionForMediaType { context: DiagnosticContext },
    MalformedSchemaReference { context: DiagnosticContext, reference: String },
    MissingSchemaReference { context: DiagnosticContext, reference: String },
    FailedSchemaDereference { context: DiagnosticContext, reference: String },
    UnsupportedSchemaKind { context: DiagnosticContext, kind: UnsupportedKind, jsonpath: String },
    UnsupportedStatusCodeRange { context: DiagnosticContext },
    MalformedResponseBodyReference { context: DiagnosticContext, reference: String },
    MissingResponseBodyReference { context: DiagnosticContext, reference: String },
    FailedResponseBodyDereference { context: DiagnosticContext, reference: String },
    RequestBodySchemaCycleDetected { context: DiagnosticContext, jsonpath: String },
    ResponseBodySchemaCycleDetected { context: DiagnosticContext, jsonpath: String },
}

/// The context of a diagnostic, as text.
pub struct ContextView {
    pub operation: Seq<char>,
    pub path: Seq<char>,
}

impl View for DiagnosticContext {
    type V = ContextView;

    open spec fn view(&self) -> ContextView {
        ContextView { operation: self.operation@, path: self.path@ }
    }
}

/// A diagnostic, with its text fields as character sequences.
pub enum Diagnostic {
    MalformedParameterReference { context: ContextView, reference: Seq<char> },
    MissingComponents,
    MissingParameterReference { context: ContextView, reference: Seq<char> },
    MalformedRequestBodyReference { context: ContextView, reference: Seq<char> },
    MissingRequestBodyReference { context: ContextView, reference: Seq<char> },
    FailedRequestBodyDereference { context: ContextView, reference: Seq<char> },
    MissingApplicationJsonRequestBodyMediaType { context: ContextView },
    MissingApplicationJsonResponseBodyMediaType { context: ContextView },
    MissingSchemaDefinitionForMediaType { context: ContextView },
    MalformedSchemaReference { context: ContextView, reference: Seq<char> },
    MissingSchemaReference { context: ContextView, reference: Seq<char> },
    FailedSchemaDereference { context: ContextView, reference: Seq<char> },
    UnsupportedSchemaKind { context: ContextView, kind: UnsupportedKind, jsonpath: Seq<char> },
    UnsupportedStatusCodeRange { context: ContextView },
    MalformedResponseBodyReference { context: ContextView, reference: Seq<char> },
    MissingResponseBodyReference { context: ContextView, reference: Seq<char> },
    FailedResponseBodyDereference { context: ContextView, reference: Seq<char> },
    RequestBodySchemaCycleDetected { context: ContextView, jsonpath: Seq<char> },
    ResponseBodySchemaCycleDetected { context: ContextView, jsonpath: Seq<char> },
}

impl View for HeaveError {
    type V = Diagnostic;

    open spec fn view(&self) -> Diagnostic {
        match self {
            HeaveError::MalformedParameterReference { context, reference } =>
                Diagnostic::MalformedParameterReference { context: context@, reference: reference@ },
            HeaveError::MissingComponents => Diagnostic::MissingComponents,
            HeaveError::MissingParameterReference { context, reference } =>
                Diagnostic::MissingParameterReference { context: context@, reference: reference@ },
            HeaveError::MalformedRequestBodyReference { context, reference } =>
                Diagnostic::MalformedRequestBodyReference { context: context@, reference: reference@ },
            HeaveError::MissingRequestBodyReference { context, reference } =>
                Diagnostic::MissingRequestBodyReference { context: context@, reference: reference@ },
            HeaveError::FailedRequestBodyDereference { context, reference } =>
                Diagnostic::FailedRequestBodyDereference { context: context@, reference: reference@ },
            HeaveError::MissingApplicationJsonRequestBodyMediaType { context } =>
                Diagnostic::MissingApplicationJsonRequestBodyMediaType { context: context@ },
            HeaveError::MissingApplicationJsonResponseBodyMediaType { context } =>
                Diagnostic::MissingApplicationJsonResponseBodyMediaType { context: context@ },
            HeaveError::MissingSchemaDefinitionForMediaType { context } =>
                Diagnostic::MissingSchemaDefinitionForMediaType { context: context@ },
            HeaveError::MalformedSchemaReference { context, reference } =>
                Diagnostic::MalformedSchemaReference { context: context@, reference: reference@ },
            HeaveError::MissingSchemaReference { context, reference } =>
                Diagnostic::MissingSchemaReference { context: context@, reference: reference@ },
            HeaveError::FailedSchemaDereference { context, reference } =>
                Diagnostic::FailedSchemaDereference { context: context@, reference: reference@ },
            HeaveError::UnsupportedSchemaKind { context, kind, jsonpath } =>
                Diagnostic::UnsupportedSchemaKind { context: context@, kind: *kind, jsonpath: jsonpath@ },
            HeaveError::UnsupportedStatusCodeRange { context } =>
                Diagnostic::UnsupportedStatusCodeRange { context: context@ },
            HeaveError::MalformedResponseBodyReference { context, reference } =>
                Diagnostic::MalformedResponseBodyReference { context: context@, reference: reference@ },
            HeaveError::MissingResponseBodyReference { context, reference } =>
                Diagnostic::MissingResponseBodyReference { context: context@, reference: reference@ },
            HeaveError::FailedResponseBodyDereference { context, reference } =>
                Diagnostic::FailedResponseBodyDereference { context: context@, reference: reference@ },
            HeaveError::RequestBodySchemaCycleDetected { context, jsonpath } =>
                Diagnostic::RequestBodySchemaCycleDetected { context: context@, jsonpath: jsonpath@ },
            HeaveError::ResponseBodySchemaCycleDetected { context, jsonpath } =>
                Diagnostic::ResponseBodySchemaCycleDetected { context: context@, jsonpath: jsonpath@ },
        }
    }
}

/// The views of a sequence of diagnostics.
pub open spec fn diagnostics_view(s: Seq<HeaveError>) -> Seq<Diagnostic> {
    s.map_values(|d: HeaveError| d@)
}

impl DiagnosticContext {
    pub fn duplicate(&self) -> (r: DiagnosticContext)
        ensures
            r@ == self@,
    {
        DiagnosticContext { operation: self.operation.clone(), path: self.path.clone() }
    }
}

} // verus!

//! Generation of HTTP test cases from an API description: reference
//! resolution, cycle-bounded schema traversal, response assertion synthesis
//! and request-body synthesis, all over a plain in-memory document model.
pub mod asserts;
pub mod body;
pub mod diagnostics;
pub mod foreign;
pub mod generate;
pub mod laws;
pub mod model;
pub mod resolve;
pub mod text;

pub use diagnostics::{DiagnosticContext, HeaveError, UnsupportedKind};
pub use generate::{filter_only_new_outputs, generate, GenerateError, GenerateResult, InputSpecExtension, Output};
pub use model::{
    Components, Document, MediaType, Method, ObjectType, Operation, Parameter, ParameterLocation, ReferenceOr, RequestBody,
    Response, Schema, SchemaKind, StatusCode,
};

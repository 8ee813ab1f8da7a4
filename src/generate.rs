//! The operation orchestrator: one output record per operation and concrete
//! status code.
use vstd::prelude::*;
use crate::asserts::{ref_asserts, ref_asserts_into};
use crate::body::{ref_body, ref_body_into, render, render_fragment};
use crate::diagnostics::{diagnostics_view, ContextView, Diagnostic, DiagnosticContext, HeaveError};
use crate::foreign::{dedup, ends_with_path, path_ends_with, pretty_json, reformat_json, unique_strings};
use crate::model::{Document, MediaType, Schema, Operation, Parameter, ParameterLocation, ReferenceOr, RequestBody, Response, StatusCode};
use crate::resolve::{
    resolution, resolve_index, schema_ref_diagnostic, schema_ref_error, RefFailure, PARAMETER_PREFIX, REQUEST_BODY_PREFIX, RESPONSE_PREFIX,
    SCHEMA_PREFIX,
};
use crate::text::{cat, decimal, decimal_text, has_prefix, replace_all, replace_char, same_text, starts_with, texts};

verus! {

/// One generated test case: everything a template needs for one operation
/// and one expected status code.
#[derive(Clone, Debug)]
pub struct Output {
    pub expected_status_code: u16,
    pub name: String,
    pub path: String,
    pub method: String,
    pub header_parameters: Vec<String>,
    pub query_parameters: Vec<String>,
    pub asserts: Vec<String>,
    pub request_body_parameter: String,
}

/// An output record, with its text as character sequences.
pub struct OutputView {
    pub expected_status_code: u16,
    pub name: Seq<char>,
    pub path: Seq<char>,
    pub method: Seq<char>,
    pub header_parameters: Seq<Seq<char>>,
    pub query_parameters: Seq<Seq<char>>,
    pub asserts: Seq<Seq<char>>,
    pub request_body_parameter: Seq<char>,
}

impl View for Output {
    type V = OutputView;

    open spec fn view(&self) -> OutputView {
        OutputView {
            expected_status_code: self.expected_status_code,
            name: self.name@,
            path: self.path@,
            method: self.method@,
            header_parameters: texts(self.header_parameters@),
            query_parameters: texts(self.query_parameters@),
            asserts: texts(self.asserts@),
            request_body_parameter: self.request_body_parameter@,
        }
    }
}

pub open spec fn outputs_view(s: Seq<Output>) -> Seq<OutputView> {
    s.map_values(|o: Output| o@)
}

/// The records and diagnostics of one generation pass.
#[derive(Debug)]
pub struct GenerateResult {
    pub outputs: Vec<Output>,
    pub diagnostics: Vec<HeaveError>,
}

/// A failure that stops generation: a synthesized request body that does
/// not read back as one JSON document.
#[derive(Debug)]
pub enum GenerateError {
    MalformedRequestBody { context: DiagnosticContext },
}

/// The name of an operation: its identifier, else its method and its path
/// with every `/` turned into `_`.
pub open spec fn operation_name(op: Operation) -> Seq<char> {
    match op.operation_id {
        Some(id) => id@,
        None => op.method.lower() + seq!['_'] + replace_char(op.path@, '/', seq!['_']),
    }
}

pub open spec fn operation_context(op: Operation) -> ContextView {
    ContextView { operation: operation_name(op), path: op.path@ }
}

/// A path template with its braces doubled, so that a second templating
/// pass prints them as they are.
pub open spec fn template_path(path: Seq<char>) -> Seq<char> {
    replace_char(replace_char(path, '{', seq!['{', '{']), '}', seq!['}', '}'])
}

/// The file name of the record of `name` for status `code`.
pub open spec fn record_name(name: Seq<char>, code: u16) -> Seq<char> {
    name + seq!['_'] + decimal(code as nat) + ".hurl"@
}

pub open spec fn parameter_section(doc: Document) -> Option<Seq<(String, ReferenceOr<Parameter>)>> {
    match doc.components {
        Some(c) => Some(c.parameters@),
        None => None,
    }
}

pub open spec fn request_body_section(doc: Document) -> Option<Seq<(String, ReferenceOr<RequestBody>)>> {
    match doc.components {
        Some(c) => Some(c.request_bodies@),
        None => None,
    }
}

pub open spec fn response_section(doc: Document) -> Option<Seq<(String, ReferenceOr<Response>)>> {
    match doc.components {
        Some(c) => Some(c.responses@),
        None => None,
    }
}

/// The inline item of a component entry.
pub open spec fn entry_item<T>(e: (String, ReferenceOr<T>)) -> T {
    match e.1 {
        ReferenceOr::Item(x) => x,
        ReferenceOr::Reference { .. } => arbitrary(),
    }
}

/// A parameter, resolved; one that does not resolve is left out, with a
/// diagnostic unless the reference pointed at another reference.
pub open spec fn resolved_parameter(doc: Document, ctx: ContextView, p: ReferenceOr<Parameter>) -> (Option<Parameter>, Seq<Diagnostic>) {
    match p {
        ReferenceOr::Item(x) => (Some(x), Seq::empty()),
        ReferenceOr::Reference { reference } => match resolution(parameter_section(doc), PARAMETER_PREFIX@, reference@) {
            Ok(i) => (Some(entry_item(parameter_section(doc)->0[i])), Seq::empty()),
            Err(RefFailure::Malformed) => (None, seq![Diagnostic::MalformedParameterReference { context: ctx, reference: reference@ }]),
            Err(RefFailure::MissingComponents) => (None, seq![Diagnostic::MissingComponents]),
            Err(RefFailure::Missing) => (None, seq![Diagnostic::MissingParameterReference { context: ctx, reference: reference@ }]),
            Err(RefFailure::Chained) => (None, Seq::empty()),
        },
    }
}

/// The header names, the query names and the diagnostics of a parameter
/// list, in order.
pub open spec fn parameter_names(doc: Document, ctx: ContextView, params: Seq<ReferenceOr<Parameter>>) -> (
    Seq<Seq<char>>,
    Seq<Seq<char>>,
    Seq<Diagnostic>,
)
    decreases params.len(),
{
    if params.len() == 0 {
        (Seq::empty(), Seq::empty(), Seq::empty())
    } else {
        let prev = parameter_names(doc, ctx, params.drop_last());
        let cur = resolved_parameter(doc, ctx, params.last());
        match cur.0 {
            Some(p) => match p.location {
                ParameterLocation::Header => (prev.0.push(p.name@), prev.1, prev.2 + cur.1),
                ParameterLocation::Query => (prev.0, prev.1.push(p.name@), prev.2 + cur.1),
                _ => (prev.0, prev.1, prev.2 + cur.1),
            },
            None => (prev.0, prev.1, prev.2 + cur.1),
        }
    }
}

/// `i` is the first media type of `content` whose name starts with
/// `application/json`.
pub open spec fn is_first_json(content: Seq<(String, MediaType)>, i: int) -> bool {
    &&& 0 <= i < content.len()
    &&& has_prefix(content[i].0@, "application/json"@)
    &&& forall|j: int| 0 <= j < i ==> !has_prefix(content[j].0@, "application/json"@)
}

pub open spec fn json_media(content: Seq<(String, MediaType)>) -> Option<int> {
    if exists|i: int| is_first_json(content, i) {
        Some(choose|i: int| is_first_json(content, i))
    } else {
        None
    }
}

/// A request body, resolved.
pub open spec fn resolved_request_body(doc: Document, ctx: ContextView, r: ReferenceOr<RequestBody>) -> (Option<RequestBody>, Seq<Diagnostic>) {
    match r {
        ReferenceOr::Item(x) => (Some(x), Seq::empty()),
        ReferenceOr::Reference { reference } => match resolution(request_body_section(doc), REQUEST_BODY_PREFIX@, reference@) {
            Ok(i) => (Some(entry_item(request_body_section(doc)->0[i])), Seq::empty()),
            Err(RefFailure::Malformed) => (None, seq![Diagnostic::MalformedRequestBodyReference { context: ctx, reference: reference@ }]),
            Err(RefFailure::MissingComponents) => (None, seq![Diagnostic::MissingComponents]),
            Err(RefFailure::Missing) => (None, seq![Diagnostic::MissingRequestBodyReference { context: ctx, reference: reference@ }]),
            Err(RefFailure::Chained) => (None, seq![Diagnostic::FailedRequestBodyDereference { context: ctx, reference: reference@ }]),
        },
    }
}

/// A response, resolved.
pub open spec fn resolved_response(doc: Document, ctx: ContextView, r: ReferenceOr<Response>) -> (Option<Response>, Seq<Diagnostic>) {
    match r {
        ReferenceOr::Item(x) => (Some(x), Seq::empty()),
        ReferenceOr::Reference { reference } => match resolution(response_section(doc), RESPONSE_PREFIX@, reference@) {
            Ok(i) => (Some(entry_item(response_section(doc)->0[i])), Seq::empty()),
            Err(RefFailure::Malformed) => (None, seq![Diagnostic::MalformedResponseBodyReference { context: ctx, reference: reference@ }]),
            Err(RefFailure::MissingComponents) => (None, seq![Diagnostic::MissingComponents]),
            Err(RefFailure::Missing) => (None, seq![Diagnostic::MissingResponseBodyReference { context: ctx, reference: reference@ }]),
            Err(RefFailure::Chained) => (None, seq![Diagnostic::FailedResponseBodyDereference { context: ctx, reference: reference@ }]),
        },
    }
}

/// The JSON text synthesized for an operation's request body, before it is
/// re-formatted, and the diagnostics met on the way.
pub open spec fn request_body_text(doc: Document, ctx: ContextView, rb: Option<ReferenceOr<RequestBody>>) -> (Option<Seq<char>>, Seq<Diagnostic>) {
    match rb {
        None => (None, Seq::empty()),
        Some(r) => {
            let resolved = resolved_request_body(doc, ctx, r);
            match resolved.0 {
                None => (None, resolved.1),
                Some(b) => match json_media(b.content@) {
                    None => (None, seq![Diagnostic::MissingApplicationJsonRequestBodyMediaType { context: ctx }]),
                    Some(j) => match b.content@[j].1.schema {
                        None => (None, seq![Diagnostic::MissingSchemaDefinitionForMediaType { context: ctx }]),
                        Some(sr) => {
                            let r = ref_body(doc, ctx, sr, seq!['$'], Seq::empty());
                            match r.0 {
                                Some(f) => (Some(render(f)), r.1),
                                None => (None, r.1),
                            }
                        },
                    },
                },
            }
        },
    }
}

/// The request-body parameter of every record of an operation: empty where
/// nothing was synthesized, else the synthesized text re-formatted; `None`
/// where that text does not read back as JSON.
pub open spec fn body_parameter(text: Option<Seq<char>>) -> Option<Seq<char>> {
    match text {
        None => Some(Seq::empty()),
        Some(t) => pretty_json(t),
    }
}

/// The record and diagnostics of one response entry; a range, or a response
/// without a JSON schema, gives no record.
pub open spec fn response_record(
    doc: Document,
    op: Operation,
    headers: Seq<Seq<char>>,
    queries: Seq<Seq<char>>,
    body: Seq<char>,
    status: StatusCode,
    r: ReferenceOr<Response>,
) -> (Option<OutputView>, Seq<Diagnostic>) {
    let ctx = operation_context(op);
    match status {
        StatusCode::Range(_) => (None, seq![Diagnostic::UnsupportedStatusCodeRange { context: ctx }]),
        StatusCode::Code(code) => {
            let resolved = resolved_response(doc, ctx, r);
            match resolved.0 {
                None => (None, resolved.1),
                Some(resp) => match json_media(resp.content@) {
                    None => (None, seq![Diagnostic::MissingApplicationJsonResponseBodyMediaType { context: ctx }]),
                    Some(j) => match resp.content@[j].1.schema {
                        None => (None, seq![Diagnostic::MissingSchemaDefinitionForMediaType { context: ctx }]),
                        Some(sr) => if top_failure(doc, ctx, sr) is Some {
                            (None, seq![top_failure(doc, ctx, sr)->0])
                        } else {
                            let a = ref_asserts(doc, ctx, sr, seq!['$'], true, Seq::empty());
                            (
                                Some(
                                    OutputView {
                                        expected_status_code: code,
                                        name: record_name(operation_name(op), code),
                                        path: template_path(op.path@),
                                        method: op.method.upper(),
                                        header_parameters: headers,
                                        query_parameters: queries,
                                        asserts: dedup(a.0),
                                        request_body_parameter: body,
                                    },
                                ),
                                a.1,
                            )
                        },
                    },
                },
            }
        },
    }
}

/// The diagnostic of a response schema that is a reference which does not
/// resolve: such a response gives no record.
pub open spec fn top_failure(doc: Document, ctx: ContextView, sr: ReferenceOr<Schema>) -> Option<Diagnostic> {
    match sr {
        ReferenceOr::Item(_) => None,
        ReferenceOr::Reference { reference } => match resolution(doc.schema_section(), SCHEMA_PREFIX@, reference@) {
            Ok(_) => None,
            Err(f) => Some(schema_ref_diagnostic(ctx, f, reference@)),
        },
    }
}

/// The records and diagnostics of a list of response entries, in order.
pub open spec fn response_records(
    doc: Document,
    op: Operation,
    headers: Seq<Seq<char>>,
    queries: Seq<Seq<char>>,
    body: Seq<char>,
    responses: Seq<(StatusCode, ReferenceOr<Response>)>,
) -> (Seq<OutputView>, Seq<Diagnostic>)
    decreases responses.len(),
{
    if responses.len() == 0 {
        (Seq::empty(), Seq::empty())
    } else {
        let prev = response_records(doc, op, headers, queries, body, responses.drop_last());
        let last = responses.last();
        let cur = response_record(doc, op, headers, queries, body, last.0, last.1);
        match cur.0 {
            Some(o) => (prev.0.push(o), prev.1 + cur.1),
            None => (prev.0, prev.1 + cur.1),
        }
    }
}

/// The records and diagnostics of one operation: parameters first, then its
/// request body, then its responses. `None` where its request body does not
/// read back as JSON.
pub open spec fn operation_outcome(doc: Document, op: Operation) -> Option<(Seq<OutputView>, Seq<Diagnostic>)> {
    let ctx = operation_context(op);
    let ps = parameter_names(doc, ctx, op.parameters@);
    let b = request_body_text(doc, ctx, op.request_body);
    match body_parameter(b.0) {
        None => None,
        Some(body) => {
            let rs = response_records(doc, op, ps.0, ps.1, body, op.responses@);
            Some((rs.0, ps.2 + b.1 + rs.1))
        },
    }
}

/// The records and diagnostics of a list of operations, in order; or the
/// position of the first operation whose request body failed.
pub open spec fn generation(doc: Document, ops: Seq<Operation>) -> Result<(Seq<OutputView>, Seq<Diagnostic>), int>
    decreases ops.len(),
{
    if ops.len() == 0 {
        Ok((Seq::empty(), Seq::empty()))
    } else {
        match generation(doc, ops.drop_last()) {
            Err(k) => Err(k),
            Ok(prev) => match operation_outcome(doc, ops.last()) {
                None => Err(ops.len() - 1),
                Some(cur) => Ok((prev.0 + cur.0, prev.1 + cur.1)),
            },
        }
    }
}

pub open spec fn opt_text(s: Option<String>) -> Option<Seq<char>> {
    match s {
        Some(x) => Some(x@),
        None => None,
    }
}

fn push_diagnostic(diags: &mut Vec<HeaveError>, d: HeaveError)
    ensures
        diagnostics_view(final(diags)@) == diagnostics_view(old(diags)@).push(d@),
{
    diags.push(d);
    proof {
        assert(diagnostics_view(final(diags)@) =~= diagnostics_view(old(diags)@).push(d@));
    }
}

fn push_text(v: &mut Vec<String>, s: String)
    ensures
        texts(final(v)@) == texts(old(v)@).push(s@),
{
    v.push(s);
    proof {
        assert(texts(final(v)@) =~= texts(old(v)@).push(s@));
    }
}

/// The name of an operation: its identifier, else its method and its path
/// with every `/` turned into `_`.
pub fn name_of_operation(op: &Operation) -> (r: String)
    ensures
        r@ == operation_name(*op),
{
    match &op.operation_id {
        Some(id) => id.clone(),
        None => {
            proof {
                reveal_strlit("_");
                assert("_"@ =~= seq!['_']);
            }
            let flat = replace_all(op.path.as_str(), '/', "_");
            cat(op.method.lower_name(), "_").concat(flat.as_str())
        },
    }
}

/// A path template with its braces doubled.
pub fn escape_template_path(path: &String) -> (r: String)
    ensures
        r@ == template_path(path@),
{
    proof {
        reveal_strlit("{{");
        reveal_strlit("}}");
        assert("{{"@ =~= seq!['{', '{']);
        assert("}}"@ =~= seq!['}', '}']);
    }
    let step = replace_all(path.as_str(), '{', "{{");
    replace_all(step.as_str(), '}', "}}")
}

/// The first media type whose name starts with `application/json`.
pub fn find_json_media(content: &Vec<(String, MediaType)>) -> (r: Option<usize>)
    ensures
        match r {
            Some(i) => json_media(content@) == Some(i as int),
            None => json_media(content@) is None,
        },
{
    let mut i: usize = 0;
    while i < content.len()
        invariant
            i <= content@.len(),
            forall|j: int| 0 <= j < i ==> !has_prefix(content@[j].0@, "application/json"@),
        decreases content@.len() - i,
    {
        if starts_with(content[i].0.as_str(), "application/json") {
            proof {
                assert(is_first_json(content@, i as int));
                let k = choose|k: int| is_first_json(content@, k);
                if k < i {
                    assert(!has_prefix(content@[k].0@, "application/json"@));
                } else if i < k {
                    assert(!has_prefix(content@[i as int].0@, "application/json"@));
                }
            }
            return Some(i);
        }
        i = i + 1;
    }
    None
}

/// Appends the header and query parameter names of `params` to `headers` and
/// `queries`, and their diagnostics to `diags`.
pub fn collect_parameters(
    doc: &Document,
    ctx: &DiagnosticContext,
    params: &Vec<ReferenceOr<Parameter>>,
    headers: &mut Vec<String>,
    queries: &mut Vec<String>,
    diags: &mut Vec<HeaveError>,
)
    ensures
        texts(final(headers)@) == texts(old(headers)@) + parameter_names(*doc, ctx@, params@).0,
        texts(final(queries)@) == texts(old(queries)@) + parameter_names(*doc, ctx@, params@).1,
        diagnostics_view(final(diags)@) == diagnostics_view(old(diags)@) + parameter_names(*doc, ctx@, params@).2,
{
    let ghost h0 = texts(headers@);
    let ghost q0 = texts(queries@);
    let ghost d0 = diagnostics_view(diags@);
    let section = match &doc.components {
        Some(c) => Some(&c.parameters),
        None => None,
    };
    let mut k: usize = 0;
    while k < params.len()
        invariant
            k <= params@.len(),
            section_is(section, parameter_section(*doc)),
            texts(headers@) == h0 + parameter_names(*doc, ctx@, params@.subrange(0, k as int)).0,
            texts(queries@) == q0 + parameter_names(*doc, ctx@, params@.subrange(0, k as int)).1,
            diagnostics_view(diags@) == d0 + parameter_names(*doc, ctx@, params@.subrange(0, k as int)).2,
        decreases params@.len() - k,
    {
        let ghost sub = params@.subrange(0, k + 1);
        proof {
            assert(sub.drop_last() =~= params@.subrange(0, k as int));
        }
        let ghost db = diagnostics_view(diags@);
        let found: Option<&Parameter> = match &params[k] {
            ReferenceOr::Item(x) => Some(x),
            ReferenceOr::Reference { reference } => match resolve_index(section, PARAMETER_PREFIX, reference) {
                Ok(i) => match &section.unwrap()[i].1 {
                    ReferenceOr::Item(x) => Some(x),
                    ReferenceOr::Reference { .. } => None,
                },
                Err(RefFailure::Malformed) => {
                    push_diagnostic(diags, HeaveError::MalformedParameterReference { context: ctx.duplicate(), reference: reference.clone() });
                    None
                },
                Err(RefFailure::MissingComponents) => {
                    push_diagnostic(diags, HeaveError::MissingComponents);
                    None
                },
                Err(RefFailure::Missing) => {
                    push_diagnostic(diags, HeaveError::MissingParameterReference { context: ctx.duplicate(), reference: reference.clone() });
                    None
                },
                Err(RefFailure::Chained) => None,
            },
        };
        proof {
            let cur = resolved_parameter(*doc, ctx@, params@[k as int]);
            assert(diagnostics_view(diags@) =~= db + cur.1);
            assert(found matches Some(p) ==> cur.0 == Some(*p));
            assert(found is None ==> cur.0 is None);
        }
        match found {
            Some(p) => match p.location {
                ParameterLocation::Header => push_text(headers, p.name.clone()),
                ParameterLocation::Query => push_text(queries, p.name.clone()),
                _ => {},
            },
            None => {},
        }
        proof {
            assert(texts(headers@) =~= h0 + parameter_names(*doc, ctx@, sub).0);
            assert(texts(queries@) =~= q0 + parameter_names(*doc, ctx@, sub).1);
            assert(diagnostics_view(diags@) =~= d0 + parameter_names(*doc, ctx@, sub).2);
        }
        k = k + 1;
    }
    assert(params@.subrange(0, params@.len() as int) =~= params@);
}

/// `section` is the exec form of the optional sequence `s`.
pub open spec fn section_is<T>(section: Option<&Vec<(String, ReferenceOr<T>)>>, s: Option<Seq<(String, ReferenceOr<T>)>>) -> bool {
    match section {
        Some(v) => s == Some(v@),
        None => s is None,
    }
}

/// A copy of `v`.
pub fn copy_texts(v: &Vec<String>) -> (r: Vec<String>)
    ensures
        texts(r@) == texts(v@),
{
    let mut out: Vec<String> = Vec::new();
    let mut k: usize = 0;
    while k < v.len()
        invariant
            k <= v@.len(),
            texts(out@) == texts(v@.subrange(0, k as int)),
        decreases v@.len() - k,
    {
        push_text(&mut out, v[k].clone());
        assert(texts(v@.subrange(0, k + 1)) =~= texts(v@.subrange(0, k as int)).push(v@[k as int]@));
        k = k + 1;
    }
    assert(v@.subrange(0, v@.len() as int) =~= v@);
    out
}

/// The JSON text synthesized for a request body, before it is re-formatted;
/// the diagnostics met on the way are appended to `diags`.
pub fn request_body_fragment(
    doc: &Document,
    ctx: &DiagnosticContext,
    rb: &Option<ReferenceOr<RequestBody>>,
    diags: &mut Vec<HeaveError>,
) -> (r: Option<String>)
    ensures
        opt_text(r) == request_body_text(*doc, ctx@, *rb).0,
        diagnostics_view(final(diags)@) == diagnostics_view(old(diags)@) + request_body_text(*doc, ctx@, *rb).1,
{
    let ghost d0 = diagnostics_view(diags@);
    let r = match rb {
        None => {
            assert(d0 + Seq::<Diagnostic>::empty() =~= d0);
            return None;
        },
        Some(r) => r,
    };
    let body: &RequestBody = match r {
        ReferenceOr::Item(x) => x,
        ReferenceOr::Reference { reference } => {
            let section = match &doc.components {
                Some(c) => Some(&c.request_bodies),
                None => None,
            };
            assert(section_is(section, request_body_section(*doc)));
            match resolve_index(section, REQUEST_BODY_PREFIX, reference) {
                Ok(i) => match &section.unwrap()[i].1 {
                    ReferenceOr::Item(x) => x,
                    ReferenceOr::Reference { .. } => {
                        return None;
                    },
                },
                Err(f) => {
                    let d = match f {
                        RefFailure::Malformed => HeaveError::MalformedRequestBodyReference { context: ctx.duplicate(), reference: reference.clone() },
                        RefFailure::MissingComponents => HeaveError::MissingComponents,
                        RefFailure::Missing => HeaveError::MissingRequestBodyReference { context: ctx.duplicate(), reference: reference.clone() },
                        RefFailure::Chained => HeaveError::FailedRequestBodyDereference { context: ctx.duplicate(), reference: reference.clone() },
                    };
                    push_diagnostic(diags, d);
                    return None;
                },
            }
        },
    };
    assert(resolved_request_body(*doc, ctx@, *r).0 == Some(*body));
    assert(resolved_request_body(*doc, ctx@, *r).1 =~= Seq::<Diagnostic>::empty());
    match find_json_media(&body.content) {
        None => {
            push_diagnostic(diags, HeaveError::MissingApplicationJsonRequestBodyMediaType { context: ctx.duplicate() });
            None
        },
        Some(j) => match &body.content[j].1.schema {
            None => {
                push_diagnostic(diags, HeaveError::MissingSchemaDefinitionForMediaType { context: ctx.duplicate() });
                None
            },
            Some(sr) => {
                let mut stack: Vec<usize> = Vec::new();
                proof {
                    reveal_strlit("$");
                }
                let root = String::from_str("$");
                assert(root@ =~= seq!['$']);
                assert(stack@ =~= Seq::<usize>::empty());
                let f = ref_body_into(doc, ctx, sr, &root, &mut stack, diags);
                match f {
                    Some(f) => Some(render_fragment(&f)),
                    None => None,
                }
            },
        },
    }
}

/// The record of one response entry, if it gives one; the diagnostics met
/// on the way are appended to `diags`.
fn response_record_of(
    doc: &Document,
    op: &Operation,
    ctx: &DiagnosticContext,
    headers: &Vec<String>,
    queries: &Vec<String>,
    body: &String,
    status: &StatusCode,
    r: &ReferenceOr<Response>,
    diags: &mut Vec<HeaveError>,
) -> (o: Option<Output>)
    requires
        ctx@ == operation_context(*op),
    ensures
        match o {
            Some(x) => response_record(*doc, *op, texts(headers@), texts(queries@), body@, *status, *r).0 == Some(x@),
            None => response_record(*doc, *op, texts(headers@), texts(queries@), body@, *status, *r).0 is None,
        },
        diagnostics_view(final(diags)@) == diagnostics_view(old(diags)@) + response_record(
            *doc,
            *op,
            texts(headers@),
            texts(queries@),
            body@,
            *status,
            *r,
        ).1,
{
    let code = match status {
        StatusCode::Range(_) => {
            push_diagnostic(diags, HeaveError::UnsupportedStatusCodeRange { context: ctx.duplicate() });
            return None;
        },
        StatusCode::Code(c) => *c,
    };
    let resp: &Response = match r {
        ReferenceOr::Item(x) => x,
        ReferenceOr::Reference { reference } => {
            let section = match &doc.components {
                Some(c) => Some(&c.responses),
                None => None,
            };
            assert(section_is(section, response_section(*doc)));
            match resolve_index(section, RESPONSE_PREFIX, reference) {
                Ok(i) => match &section.unwrap()[i].1 {
                    ReferenceOr::Item(x) => x,
                    ReferenceOr::Reference { .. } => {
                        return None;
                    },
                },
                Err(f) => {
                    let d = match f {
                        RefFailure::Malformed => HeaveError::MalformedResponseBodyReference { context: ctx.duplicate(), reference: reference.clone() },
                        RefFailure::MissingComponents => HeaveError::MissingComponents,
                        RefFailure::Missing => HeaveError::MissingResponseBodyReference { context: ctx.duplicate(), reference: reference.clone() },
                        RefFailure::Chained => HeaveError::FailedResponseBodyDereference { context: ctx.duplicate(), reference: reference.clone() },
                    };
                    push_diagnostic(diags, d);
                    return None;
                },
            }
        },
    };
    assert(resolved_response(*doc, ctx@, *r).0 == Some(*resp));
    let j = match find_json_media(&resp.content) {
        None => {
            push_diagnostic(diags, HeaveError::MissingApplicationJsonResponseBodyMediaType { context: ctx.duplicate() });
            return None;
        },
        Some(j) => j,
    };
    let sr = match &resp.content[j].1.schema {
        None => {
            push_diagnostic(diags, HeaveError::MissingSchemaDefinitionForMediaType { context: ctx.duplicate() });
            return None;
        },
        Some(sr) => sr,
    };
    if let ReferenceOr::Reference { reference } = sr {
        let section = match &doc.components {
            Some(c) => Some(&c.schemas),
            None => None,
        };
        if let Err(f) = resolve_index(section, SCHEMA_PREFIX, reference) {
            push_diagnostic(diags, schema_ref_error(ctx, f, reference));
            return None;
        }
    }
    let mut stack: Vec<usize> = Vec::new();
    proof {
        reveal_strlit("$");
        reveal_strlit(".hurl");
        reveal_strlit("_");
    }
    let root = String::from_str("$");
    assert(root@ =~= seq!['$']);
    assert(stack@ =~= Seq::<usize>::empty());
    let mut found: Vec<String> = Vec::new();
    let ghost f0 = texts(found@);
    ref_asserts_into(doc, ctx, sr, &root, true, &mut stack, &mut found, diags);
    assert(f0 =~= Seq::<Seq<char>>::empty());
    assert(texts(found@) =~= ref_asserts(*doc, ctx@, *sr, seq!['$'], true, Seq::empty()).0);
    let asserts = unique_strings(found);
    let name = cat(ctx.operation.as_str(), "_").concat(decimal_text(code).as_str()).concat(".hurl");
    assert(name@ =~= record_name(operation_name(*op), code));
    let output = Output {
        expected_status_code: code,
        name,
        path: escape_template_path(&op.path),
        method: String::from_str(op.method.upper_name()),
        header_parameters: copy_texts(headers),
        query_parameters: copy_texts(queries),
        asserts,
        request_body_parameter: body.clone(),
    };
    Some(output)
}

proof fn lemma_generation_failure_persists(doc: Document, ops: Seq<Operation>, m: int, k: int)
    requires
        0 <= m <= ops.len(),
        generation(doc, ops.subrange(0, m)) == Err::<(Seq<OutputView>, Seq<Diagnostic>), int>(k),
    ensures
        generation(doc, ops) == Err::<(Seq<OutputView>, Seq<Diagnostic>), int>(k),
    decreases ops.len(),
{
    if m == ops.len() {
        assert(ops.subrange(0, m) =~= ops);
    } else {
        assert(ops.drop_last().subrange(0, m) =~= ops.subrange(0, m));
        lemma_generation_failure_persists(doc, ops.drop_last(), m, k);
    }
}

/// Appends the records of the responses of `op`, with the given header and
/// query names and request-body parameter, to `outputs`, and their
/// diagnostics to `diags`.
pub fn response_records_into(
    doc: &Document,
    op: &Operation,
    headers: &Vec<String>,
    queries: &Vec<String>,
    body: &String,
    outputs: &mut Vec<Output>,
    diags: &mut Vec<HeaveError>,
)
    ensures
        outputs_view(final(outputs)@) == outputs_view(old(outputs)@) + response_records(
            *doc,
            *op,
            texts(headers@),
            texts(queries@),
            body@,
            op.responses@,
        ).0,
        diagnostics_view(final(diags)@) == diagnostics_view(old(diags)@) + response_records(
            *doc,
            *op,
            texts(headers@),
            texts(queries@),
            body@,
            op.responses@,
        ).1,
{
    let ghost out0 = outputs_view(outputs@);
    let ghost diag1 = diagnostics_view(diags@);
    let ghost hs = texts(headers@);
    let ghost qs = texts(queries@);
    let ctx = DiagnosticContext { operation: name_of_operation(op), path: op.path.clone() };
    let ghost rs = op.responses@;
    let mut j: usize = 0;
    while j < op.responses.len()
        invariant
            j <= rs.len(),
            rs == op.responses@,
            hs == texts(headers@),
            qs == texts(queries@),
            ctx@ == operation_context(*op),
            outputs_view(outputs@) == out0 + response_records(*doc, *op, hs, qs, body@, rs.subrange(0, j as int)).0,
            diagnostics_view(diags@) == diag1 + response_records(*doc, *op, hs, qs, body@, rs.subrange(0, j as int)).1,
        decreases rs.len() - j,
    {
        let entry = &op.responses[j];
        let ghost rsub = rs.subrange(0, j + 1);
        proof {
            assert(rsub.drop_last() =~= rs.subrange(0, j as int));
            assert(rsub.last() == *entry);
        }
        let got = response_record_of(doc, op, &ctx, headers, queries, body, &entry.0, &entry.1, diags);
        match got {
            Some(o) => push_output(outputs, o),
            None => {},
        }
        proof {
            assert(outputs_view(outputs@) =~= out0 + response_records(*doc, *op, hs, qs, body@, rsub).0);
            assert(diagnostics_view(diags@) =~= diag1 + response_records(*doc, *op, hs, qs, body@, rsub).1);
        }
        j = j + 1;
    }
    assert(rs.subrange(0, rs.len() as int) =~= rs);
}

fn push_output(v: &mut Vec<Output>, o: Output)
    ensures
        outputs_view(final(v)@) == outputs_view(old(v)@).push(o@),
{
    v.push(o);
    proof {
        assert(outputs_view(final(v)@) =~= outputs_view(old(v)@).push(o@));
    }
}

/// Generates the records and diagnostics of every operation of `doc`, in
/// document order. It fails only where the request body synthesized for an
/// operation does not read back as JSON, naming the first such operation.
pub fn generate(doc: &Document) -> (r: Result<GenerateResult, GenerateError>)
    ensures
        match r {
            Ok(res) => generation(*doc, doc.operations@) == Ok::<(Seq<OutputView>, Seq<Diagnostic>), int>(
                (outputs_view(res.outputs@), diagnostics_view(res.diagnostics@)),
            ),
            Err(GenerateError::MalformedRequestBody { context }) => generation(*doc, doc.operations@) matches Err(k) && 0 <= k
                < doc.operations@.len() && context@ == operation_context(doc.operations@[k]),
        },
{
    let ghost ops = doc.operations@;
    let mut outputs: Vec<Output> = Vec::new();
    let mut diagnostics: Vec<HeaveError> = Vec::new();
    let mut i: usize = 0;
    assert(outputs_view(outputs@) =~= Seq::<OutputView>::empty());
    assert(diagnostics_view(diagnostics@) =~= Seq::<Diagnostic>::empty());
    while i < doc.operations.len()
        invariant
            i <= ops.len(),
            ops == doc.operations@,
            generation(*doc, ops.subrange(0, i as int)) == Ok::<(Seq<OutputView>, Seq<Diagnostic>), int>(
                (outputs_view(outputs@), diagnostics_view(diagnostics@)),
            ),
        decreases ops.len() - i,
    {
        let op = &doc.operations[i];
        let ghost sub = ops.subrange(0, i + 1);
        proof {
            assert(sub.drop_last() =~= ops.subrange(0, i as int));
            assert(sub.last() == *op);
        }
        let ghost out0 = outputs_view(outputs@);
        let ghost diag0 = diagnostics_view(diagnostics@);
        let ctx = DiagnosticContext { operation: name_of_operation(op), path: op.path.clone() };
        assert(ctx@ == operation_context(*op));
        let mut headers: Vec<String> = Vec::new();
        let mut queries: Vec<String> = Vec::new();
        assert(texts(headers@) =~= Seq::<Seq<char>>::empty());
        assert(texts(queries@) =~= Seq::<Seq<char>>::empty());
        collect_parameters(doc, &ctx, &op.parameters, &mut headers, &mut queries, &mut diagnostics);
        let text = request_body_fragment(doc, &ctx, &op.request_body, &mut diagnostics);
        let body = match text {
            None => String::new(),
            Some(t) => match reformat_json(t.as_str()) {
                Some(p) => p,
                None => {
                    proof {
                        assert(generation(*doc, sub) == Err::<(Seq<OutputView>, Seq<Diagnostic>), int>(i as int));
                        lemma_generation_failure_persists(*doc, ops, i + 1, i as int);
                    }
                    return Err(GenerateError::MalformedRequestBody { context: ctx });
                },
            },
        };
        let ghost ps = parameter_names(*doc, ctx@, op.parameters@);
        let ghost b = request_body_text(*doc, ctx@, op.request_body);
        assert(body_parameter(b.0) == Some(body@));
        assert(diagnostics_view(diagnostics@) =~= diag0 + ps.2 + b.1);
        response_records_into(doc, op, &headers, &queries, &body, &mut outputs, &mut diagnostics);
        proof {
            let outcome = operation_outcome(*doc, *op)->0;
            assert(outputs_view(outputs@) =~= out0 + outcome.0);
            assert(diagnostics_view(diagnostics@) =~= diag0 + outcome.1);
        }
        i = i + 1;
    }
    assert(ops.subrange(0, ops.len() as int) =~= ops);
    Ok(GenerateResult { outputs, diagnostics })
}

/// The kinds of file a document can be read from.
#[derive(Clone, Copy, Debug, PartialEq, Eq, Structural)]
pub enum InputSpecExtension {
    Json,
    Yaml,
}

impl InputSpecExtension {
    /// The kind that a file name extension stands for: `json` or `yaml`.
    pub open spec fn of_extension(ext: Seq<char>) -> Option<InputSpecExtension> {
        if ext == "json"@ {
            Some(InputSpecExtension::Json)
        } else if ext == "yaml"@ {
            Some(InputSpecExtension::Yaml)
        } else {
            None
        }
    }

    pub fn from_extension(ext: &str) -> (r: Option<InputSpecExtension>)
        ensures
            r == Self::of_extension(ext@),
    {
        if same_text(ext, "json") {
            Some(InputSpecExtension::Json)
        } else if same_text(ext, "yaml") {
            Some(InputSpecExtension::Yaml)
        } else {
            None
        }
    }
}

/// `outputs` without those marked in `existing` (an output with no mark is
/// kept), in order.
pub open spec fn unmarked(outputs: Seq<Output>, existing: Seq<bool>) -> Seq<Output>
    decreases outputs.len(),
{
    if outputs.len() == 0 {
        Seq::empty()
    } else {
        let prev = unmarked(outputs.drop_last(), existing);
        let i = outputs.len() - 1;
        if i < existing.len() && existing[i] {
            prev
        } else {
            prev.push(outputs.last())
        }
    }
}

/// Whether a file of `files` ends with the file name `name`.
pub open spec fn already_written(files: Seq<String>, name: Seq<char>) -> bool {
    exists|j: int| 0 <= j < files.len() && path_ends_with(files[j]@, name)
}

/// `outputs` without those whose file name ends one of `files`, in order.
pub open spec fn new_outputs(files: Seq<String>, outputs: Seq<Output>) -> Seq<Output>
    decreases outputs.len(),
{
    if outputs.len() == 0 {
        Seq::empty()
    } else {
        let prev = new_outputs(files, outputs.drop_last());
        if already_written(files, outputs.last().name@) {
            prev
        } else {
            prev.push(outputs.last())
        }
    }
}

/// Keeps the outputs that `existing` does not mark, in order.
pub fn filter_by_existing(outputs: Vec<Output>, existing: &Vec<bool>) -> (r: Vec<Output>)
    ensures
        r@ == unmarked(outputs@, existing@),
{
    let ghost all = outputs@;
    let n = outputs.len();
    let mut rest = outputs;
    let mut kept: Vec<Output> = Vec::new();
    let mut k: usize = 0;
    while rest.len() > 0
        invariant
            k <= all.len(),
            all.len() == n,
            rest@ == all.subrange(k as int, all.len() as int),
            kept@ == unmarked(all.subrange(0, k as int), existing@),
        decreases rest@.len(),
    {
        assert(k < all.len());
        let o = rest.remove(0);
        proof {
            let sub = all.subrange(0, k + 1);
            assert(sub.drop_last() =~= all.subrange(0, k as int));
            assert(sub.last() == o);
        }
        if !(k < existing.len() && existing[k]) {
            kept.push(o);
        }
        assert(rest@ =~= all.subrange(k + 1, all.len() as int));
        k = k + 1;
    }
    assert(all.subrange(0, all.len() as int) =~= all);
    kept
}

/// Keeps the outputs whose file name is not the end of a file of
/// `existing_files`, in order.
pub fn filter_only_new_outputs(existing_files: &[String], outputs: Vec<Output>) -> (r: Vec<Output>)
    ensures
        r@ == new_outputs(existing_files@, outputs@),
{
    let mut marks: Vec<bool> = Vec::new();
    let mut k: usize = 0;
    while k < outputs.len()
        invariant
            k <= outputs@.len(),
            marks@.len() == k,
            forall|i: int| 0 <= i < k ==> marks@[i] == already_written(existing_files@, outputs@[i].name@),
        decreases outputs@.len() - k,
    {
        let mut found = false;
        let mut j: usize = 0;
        while j < existing_files.len()
            invariant
                k < outputs@.len(),
                j <= existing_files@.len(),
                found == exists|f: int| 0 <= f < j && path_ends_with(existing_files@[f]@, outputs@[k as int].name@),
            decreases existing_files@.len() - j,
        {
            if ends_with_path(existing_files[j].as_str(), outputs[k].name.as_str()) {
                found = true;
            }
            j = j + 1;
        }
        marks.push(found);
        k = k + 1;
    }
    let ghost all = outputs@;
    let r = filter_by_existing(outputs, &marks);
    proof {
        lemma_unmarked_is_new(existing_files@, all, marks@);
    }
    r
}

proof fn lemma_unmarked_is_new(files: Seq<String>, outputs: Seq<Output>, marks: Seq<bool>)
    requires
        marks.len() >= outputs.len(),
        forall|i: int| 0 <= i < outputs.len() ==> marks[i] == already_written(files, outputs[i].name@),
    ensures
        unmarked(outputs, marks) == new_outputs(files, outputs),
    decreases outputs.len(),
{
    if outputs.len() > 0 {
        lemma_unmarked_is_new(files, outputs.drop_last(), marks);
    }
}

} // verus!

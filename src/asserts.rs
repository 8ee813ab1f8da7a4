//! The assertion synthesizer: from a response schema to JSONPath assertions.
use vstd::prelude::*;
use crate::diagnostics::{diagnostics_view, ContextView, Diagnostic, DiagnosticContext, HeaveError, UnsupportedKind};
use crate::model::{Document, ReferenceOr, Schema, SchemaKind};
use crate::resolve::{on_stack, resolution, resolve_index, schema_ref_diagnostic, schema_ref_error, SCHEMA_PREFIX};
use crate::text::{cat, contains_char, texts};

verus! {

/// The path of property `name` below `path`: dotted, or subscripted where
/// the name holds a character that a dotted accessor cannot.
pub open spec fn child_path(path: Seq<char>, name: Seq<char>) -> Seq<char> {
    if name.contains('@') || name.contains('$') {
        path + seq!['[', '\''] + name + seq!['\'', ']']
    } else {
        path + seq!['.'] + name
    }
}

/// One assertion line; an optional one is commented out.
pub open spec fn assertion_line(path: Seq<char>, predicate: Seq<char>, required: bool) -> Seq<char> {
    (if required {
        Seq::empty()
    } else {
        seq!['#']
    }) + "jsonpath \""@ + path + "\" "@ + predicate
}

/// Whether `name` is among `names`.
pub open spec fn names_contain(names: Seq<String>, name: Seq<char>) -> bool {
    exists|j: int| 0 <= j < names.len() && names[j]@ == name
}

/// The measure that bounds every traversal: how many more named schemas can
/// still be opened.
pub open spec fn open_budget(doc: Document, stack: Seq<usize>) -> int {
    doc.schema_count() - stack.len()
}

/// Whether descending into named schema `i` with `stack` open closes a
/// cycle. The stack never holds more entries than there are named schemas.
pub open spec fn closes_cycle(doc: Document, stack: Seq<usize>, i: int) -> bool {
    stack.contains(i as usize) || stack.len() >= doc.schema_count()
}

/// The named schema at position `i` of the schema section.
pub open spec fn named_schema(doc: Document, i: int) -> Schema {
    match doc.components->0.schemas@[i].1 {
        ReferenceOr::Item(s) => s,
        ReferenceOr::Reference { .. } => arbitrary(),
    }
}

/// The assertions and diagnostics for `schema` at `path`, with the named
/// schemas of `stack` open.
pub open spec fn schema_asserts(
    doc: Document,
    ctx: ContextView,
    schema: Schema,
    path: Seq<char>,
    required: bool,
    stack: Seq<usize>,
) -> (Seq<Seq<char>>, Seq<Diagnostic>)
    decreases open_budget(doc, stack), schema, 0int,
{
    if schema.write_only {
        (Seq::empty(), Seq::empty())
    } else {
        match schema.kind {
            SchemaKind::Boolean => (seq![assertion_line(path, "isBoolean"@, required)], Seq::empty()),
            SchemaKind::String => (seq![assertion_line(path, "isString"@, required)], Seq::empty()),
            SchemaKind::Number => (seq![assertion_line(path, "isNumber"@, required)], Seq::empty()),
            SchemaKind::Integer => (seq![assertion_line(path, "isInteger"@, required)], Seq::empty()),
            SchemaKind::Array(items) => {
                let head = seq![assertion_line(path, "isCollection"@, required)];
                match items {
                    None => (head, Seq::empty()),
                    Some(b) => {
                        let r = ref_asserts(doc, ctx, *b, path + "[0]"@, false, stack);
                        (head + r.0, r.1)
                    },
                }
            },
            SchemaKind::Object(ob) => {
                let r = property_asserts(doc, ctx, ob.properties@, ob.required@, path, required, stack);
                (seq![assertion_line(path, "isCollection"@, required)] + r.0, r.1)
            },
            SchemaKind::AllOf(members) => member_asserts(doc, ctx, members@, path, required, stack),
            SchemaKind::OneOf => (Seq::empty(), seq![unsupported(ctx, UnsupportedKind::OneOf, path)]),
            SchemaKind::AnyOf => (Seq::empty(), seq![unsupported(ctx, UnsupportedKind::AnyOf, path)]),
            SchemaKind::Not => (Seq::empty(), seq![unsupported(ctx, UnsupportedKind::Not, path)]),
            SchemaKind::Any => (Seq::empty(), seq![unsupported(ctx, UnsupportedKind::Any, path)]),
        }
    }
}

pub open spec fn unsupported(ctx: ContextView, kind: UnsupportedKind, path: Seq<char>) -> Diagnostic {
    Diagnostic::UnsupportedSchemaKind { context: ctx, kind, jsonpath: path }
}

/// The assertions and diagnostics for a possibly-referenced schema: a
/// reference is resolved, and one that reopens an open named schema stops
/// with a cycle diagnostic.
pub open spec fn ref_asserts(
    doc: Document,
    ctx: ContextView,
    r: ReferenceOr<Schema>,
    path: Seq<char>,
    required: bool,
    stack: Seq<usize>,
) -> (Seq<Seq<char>>, Seq<Diagnostic>)
    decreases open_budget(doc, stack), r, 0int,
{
    match r {
        ReferenceOr::Item(s) => schema_asserts(doc, ctx, s, path, required, stack),
        ReferenceOr::Reference { reference } => match resolution(doc.schema_section(), SCHEMA_PREFIX@, reference@) {
            Err(f) => (Seq::empty(), seq![schema_ref_diagnostic(ctx, f, reference@)]),
            Ok(i) => if closes_cycle(doc, stack, i) {
                (Seq::empty(), seq![Diagnostic::ResponseBodySchemaCycleDetected { context: ctx, jsonpath: path }])
            } else {
                schema_asserts(doc, ctx, named_schema(doc, i), path, required, stack.push(i as usize))
            },
        },
    }
}

/// The assertions and diagnostics of the properties of an object, in order.
pub open spec fn property_asserts(
    doc: Document,
    ctx: ContextView,
    props: Seq<(String, ReferenceOr<Schema>)>,
    required_names: Seq<String>,
    path: Seq<char>,
    required: bool,
    stack: Seq<usize>,
) -> (Seq<Seq<char>>, Seq<Diagnostic>)
    decreases open_budget(doc, stack), props, props.len(),
{
    if props.len() == 0 {
        (Seq::empty(), Seq::empty())
    } else {
        let last = props[props.len() - 1];
        let prev = property_asserts(doc, ctx, props.subrange(0, props.len() - 1), required_names, path, required, stack);
        let cur = ref_asserts(
            doc,
            ctx,
            last.1,
            child_path(path, last.0@),
            required && names_contain(required_names, last.0@),
            stack,
        );
        (prev.0 + cur.0, prev.1 + cur.1)
    }
}

/// The assertions and diagnostics of the members of an `allOf`, all at the
/// same path, in order.
pub open spec fn member_asserts(
    doc: Document,
    ctx: ContextView,
    members: Seq<ReferenceOr<Schema>>,
    path: Seq<char>,
    required: bool,
    stack: Seq<usize>,
) -> (Seq<Seq<char>>, Seq<Diagnostic>)
    decreases open_budget(doc, stack), members, members.len(),
{
    if members.len() == 0 {
        (Seq::empty(), Seq::empty())
    } else {
        let prev = member_asserts(doc, ctx, members.subrange(0, members.len() - 1), path, required, stack);
        let cur = ref_asserts(doc, ctx, members[members.len() - 1], path, required, stack);
        (prev.0 + cur.0, prev.1 + cur.1)
    }
}

/// The path of property `name` below `path`.
pub fn path_below(path: &String, name: &String) -> (r: String)
    ensures
        r@ == child_path(path@, name@),
{
    proof {
        reveal_strlit("['");
        reveal_strlit("']");
        reveal_strlit(".");
    }
    if contains_char(name.as_str(), '@') || contains_char(name.as_str(), '$') {
        cat(cat(path.as_str(), "['").as_str(), name.as_str()).concat("']")
    } else {
        cat(path.as_str(), ".").concat(name.as_str())
    }
}

fn names_include(names: &Vec<String>, name: &String) -> (r: bool)
    ensures
        r == names_contain(names@, name@),
{
    let mut k: usize = 0;
    while k < names.len()
        invariant
            k <= names@.len(),
            forall|j: int| 0 <= j < k ==> names@[j]@ != name@,
        decreases names@.len() - k,
    {
        if names[k] == *name {
            return true;
        }
        k = k + 1;
    }
    false
}

fn push_line(out: &mut Vec<String>, path: &String, predicate: &str, required: bool)
    ensures
        texts(final(out)@) == texts(old(out)@).push(assertion_line(path@, predicate@, required)),
{
    let lead = if required {
        String::new()
    } else {
        proof {
            reveal_strlit("#");
        }
        String::from_str("#")
    };
    let line = lead.concat("jsonpath \"").concat(path.as_str()).concat("\" ").concat(predicate);
    proof {
        assert(line@ =~= assertion_line(path@, predicate@, required));
    }
    out.push(line);
    proof {
        assert(texts(final(out)@) =~= texts(old(out)@).push(assertion_line(path@, predicate@, required)));
    }
}

fn push_diagnostic(diags: &mut Vec<HeaveError>, d: HeaveError)
    ensures
        diagnostics_view(final(diags)@) == diagnostics_view(old(diags)@).push(d@),
{
    diags.push(d);
    proof {
        assert(diagnostics_view(final(diags)@) =~= diagnostics_view(old(diags)@).push(d@));
    }
}

/// Appends to `out` the assertions, and to `diags` the diagnostics, of
/// `schema` at `path`, with the named schemas of `stack` open.
pub fn schema_asserts_into(
    doc: &Document,
    ctx: &DiagnosticContext,
    schema: &Schema,
    path: &String,
    required: bool,
    stack: &mut Vec<usize>,
    out: &mut Vec<String>,
    diags: &mut Vec<HeaveError>,
)
    ensures
        final(stack)@ == old(stack)@,
        texts(final(out)@) == texts(old(out)@) + schema_asserts(*doc, ctx@, *schema, path@, required, old(stack)@).0,
        diagnostics_view(final(diags)@) == diagnostics_view(old(diags)@) + schema_asserts(
            *doc,
            ctx@,
            *schema,
            path@,
            required,
            old(stack)@,
        ).1,
    decreases open_budget(*doc, old(stack)@), *schema, 0int,
{
    let ghost out0 = texts(out@);
    let ghost diags0 = diagnostics_view(diags@);
    if schema.write_only {
        assert(out0 + Seq::<Seq<char>>::empty() =~= out0);
        assert(diags0 + Seq::<Diagnostic>::empty() =~= diags0);
        return ;
    }
    match &schema.kind {
        SchemaKind::Boolean => {
            push_line(out, path, "isBoolean", required);
            assert(diags0 + Seq::<Diagnostic>::empty() =~= diags0);
        },
        SchemaKind::String => {
            push_line(out, path, "isString", required);
            assert(diags0 + Seq::<Diagnostic>::empty() =~= diags0);
        },
        SchemaKind::Number => {
            push_line(out, path, "isNumber", required);
            assert(diags0 + Seq::<Diagnostic>::empty() =~= diags0);
        },
        SchemaKind::Integer => {
            push_line(out, path, "isInteger", required);
            assert(diags0 + Seq::<Diagnostic>::empty() =~= diags0);
        },
        SchemaKind::Array(items) => {
            push_line(out, path, "isCollection", required);
            match items {
                None => {
                    assert(diags0 + Seq::<Diagnostic>::empty() =~= diags0);
                },
                Some(b) => {
                    let inner = cat(path.as_str(), "[0]");
                    ref_asserts_into(doc, ctx, b, &inner, false, stack, out, diags);
                    assert(texts(out@) =~= out0 + schema_asserts(*doc, ctx@, *schema, path@, required, old(stack)@).0);
                },
            }
        },
        SchemaKind::Object(ob) => {
            push_line(out, path, "isCollection", required);
            let ghost out1 = texts(out@);
            let ghost props = ob.properties@;
            let mut k: usize = 0;
            while k < ob.properties.len()
                invariant
                    k <= props.len(),
                    props == ob.properties@,
                    schema.kind == SchemaKind::Object(*ob),
                    stack@ == old(stack)@,
                    texts(out@) == out1 + property_asserts(*doc, ctx@, props.subrange(0, k as int), ob.required@, path@, required, stack@).0,
                    diagnostics_view(diags@) == diags0 + property_asserts(
                        *doc,
                        ctx@,
                        props.subrange(0, k as int),
                        ob.required@,
                        path@,
                        required,
                        stack@,
                    ).1,
                decreases props.len() - k,
            {
                let entry = &ob.properties[k];
                let child = path_below(path, &entry.0);
                let child_required = required && names_include(&ob.required, &entry.0);
                proof {
                    assert(schema.kind is Object);
                    assert(decreases_to!(*schema => schema.kind));
                    assert(decreases_to!(schema.kind => schema.kind->Object_0));
                    assert(decreases_to!(schema.kind->Object_0 => ob.properties));
                    assert(decreases_to!(ob.properties => props));
                    assert(decreases_to!(props => props[k as int]));
                    assert(decreases_to!(props[k as int] => props[k as int].1));
                }
                ref_asserts_into(doc, ctx, &entry.1, &child, child_required, stack, out, diags);
                proof {
                    let next = props.subrange(0, k + 1);
                    assert(next.subrange(0, next.len() - 1) =~= props.subrange(0, k as int));
                    assert(next[next.len() - 1] == props[k as int]);
                    assert(texts(out@) =~= out1 + property_asserts(*doc, ctx@, next, ob.required@, path@, required, stack@).0);
                    assert(diagnostics_view(diags@) =~= diags0 + property_asserts(*doc, ctx@, next, ob.required@, path@, required, stack@).1);
                }
                k = k + 1;
            }
            proof {
                assert(props.subrange(0, props.len() as int) =~= props);
                assert(texts(out@) =~= out0 + schema_asserts(*doc, ctx@, *schema, path@, required, old(stack)@).0);
            }
        },
        SchemaKind::AllOf(members) => {
            let ghost ms = members@;
            let mut k: usize = 0;
            while k < members.len()
                invariant
                    k <= ms.len(),
                    ms == members@,
                    schema.kind == SchemaKind::AllOf(*members),
                    stack@ == old(stack)@,
                    texts(out@) == out0 + member_asserts(*doc, ctx@, ms.subrange(0, k as int), path@, required, stack@).0,
                    diagnostics_view(diags@) == diags0 + member_asserts(*doc, ctx@, ms.subrange(0, k as int), path@, required, stack@).1,
                decreases ms.len() - k,
            {
                proof {
                    assert(schema.kind is AllOf);
                    assert(decreases_to!(*schema => schema.kind));
                    assert(decreases_to!(schema.kind => schema.kind->AllOf_0));
                    assert(decreases_to!(schema.kind->AllOf_0 => ms));
                    assert(decreases_to!(ms => ms[k as int]));
                }
                ref_asserts_into(doc, ctx, &members[k], path, required, stack, out, diags);
                proof {
                    let next = ms.subrange(0, k + 1);
                    assert(next.subrange(0, next.len() - 1) =~= ms.subrange(0, k as int));
                    assert(texts(out@) =~= out0 + member_asserts(*doc, ctx@, next, path@, required, stack@).0);
                    assert(diagnostics_view(diags@) =~= diags0 + member_asserts(*doc, ctx@, next, path@, required, stack@).1);
                }
                k = k + 1;
            }
            assert(ms.subrange(0, ms.len() as int) =~= ms);
        },
        SchemaKind::OneOf => {
            push_unsupported(diags, ctx, UnsupportedKind::OneOf, path);
            assert(out0 + Seq::<Seq<char>>::empty() =~= out0);
        },
        SchemaKind::AnyOf => {
            push_unsupported(diags, ctx, UnsupportedKind::AnyOf, path);
            assert(out0 + Seq::<Seq<char>>::empty() =~= out0);
        },
        SchemaKind::Not => {
            push_unsupported(diags, ctx, UnsupportedKind::Not, path);
            assert(out0 + Seq::<Seq<char>>::empty() =~= out0);
        },
        SchemaKind::Any => {
            push_unsupported(diags, ctx, UnsupportedKind::Any, path);
            assert(out0 + Seq::<Seq<char>>::empty() =~= out0);
        },
    }
}

pub fn push_unsupported(diags: &mut Vec<HeaveError>, ctx: &DiagnosticContext, kind: UnsupportedKind, path: &String)
    ensures
        diagnostics_view(final(diags)@) == diagnostics_view(old(diags)@).push(unsupported(ctx@, kind, path@)),
{
    push_diagnostic(diags, HeaveError::UnsupportedSchemaKind { context: ctx.duplicate(), kind, jsonpath: path.clone() });
}

/// Appends the assertions and diagnostics of a possibly-referenced schema.
pub fn ref_asserts_into(
    doc: &Document,
    ctx: &DiagnosticContext,
    r: &ReferenceOr<Schema>,
    path: &String,
    required: bool,
    stack: &mut Vec<usize>,
    out: &mut Vec<String>,
    diags: &mut Vec<HeaveError>,
)
    ensures
        final(stack)@ == old(stack)@,
        texts(final(out)@) == texts(old(out)@) + ref_asserts(*doc, ctx@, *r, path@, required, old(stack)@).0,
        diagnostics_view(final(diags)@) == diagnostics_view(old(diags)@) + ref_asserts(*doc, ctx@, *r, path@, required, old(stack)@).1,
    decreases open_budget(*doc, old(stack)@), *r, 0int,
{
    let ghost out0 = texts(out@);
    let ghost diags0 = diagnostics_view(diags@);
    match r {
        ReferenceOr::Item(s) => {
            schema_asserts_into(doc, ctx, s, path, required, stack, out, diags);
        },
        ReferenceOr::Reference { reference } => {
            let section = match &doc.components {
                Some(c) => Some(&c.schemas),
                None => None,
            };
            match resolve_index(section, SCHEMA_PREFIX, reference) {
                Err(f) => {
                    push_diagnostic(diags, schema_ref_error(ctx, f, reference));
                    assert(out0 + Seq::<Seq<char>>::empty() =~= out0);
                    assert(diagnostics_view(diags@) =~= diags0 + ref_asserts(*doc, ctx@, *r, path@, required, old(stack)@).1);
                },
                Ok(i) => {
                    let components = doc.components.as_ref().unwrap();
                    if on_stack(stack, i) || stack.len() >= components.schemas.len() {
                        push_diagnostic(
                            diags,
                            HeaveError::ResponseBodySchemaCycleDetected { context: ctx.duplicate(), jsonpath: path.clone() },
                        );
                        assert(out0 + Seq::<Seq<char>>::empty() =~= out0);
                        assert(diagnostics_view(diags@) =~= diags0 + ref_asserts(*doc, ctx@, *r, path@, required, old(stack)@).1);
                    } else {
                        match &components.schemas[i].1 {
                            ReferenceOr::Item(s) => {
                                stack.push(i);
                                schema_asserts_into(doc, ctx, s, path, required, stack, out, diags);
                                stack.pop();
                                assert(stack@ =~= old(stack)@);
                            },
                            ReferenceOr::Reference { .. } => {},
                        }
                    }
                },
            }
        },
    }
}

} // verus!

//! Resolution of references to named components.
use vstd::prelude::*;
use crate::diagnostics::{ContextView, Diagnostic, DiagnosticContext, HeaveError};
use crate::model::ReferenceOr;
use crate::text::{has_prefix, starts_with};

verus! {

/// Why a reference did not resolve to an inline definition.
#[derive(Clone, Copy, Debug, PartialEq, Eq, Structural)]
pub enum RefFailure {
    /// The reference does not start with the prefix of its component kind.
    Malformed,
    /// The document has no components section.
    MissingComponents,
    /// No component of that kind has the name.
    Missing,
    /// The named component is itself a reference.
    Chained,
}

/// `i` is the first entry of `entries` whose name is `name`.
pub open spec fn is_first_named<T>(entries: Seq<(String, ReferenceOr<T>)>, name: Seq<char>, i: int) -> bool {
    &&& 0 <= i < entries.len()
    &&& entries[i].0@ == name
    &&& forall|j: int| 0 <= j < i ==> entries[j].0@ != name
}

/// The position of the first entry named `name`, if there is one.
pub open spec fn find_named<T>(entries: Seq<(String, ReferenceOr<T>)>, name: Seq<char>) -> Option<int> {
    if exists|i: int| is_first_named(entries, name, i) {
        Some(choose|i: int| is_first_named(entries, name, i))
    } else {
        None
    }
}

/// The sequence view of an optional component section.
pub open spec fn section_view<T>(section: Option<&Vec<(String, ReferenceOr<T>)>>) -> Option<Seq<(String, ReferenceOr<T>)>> {
    match section {
        Some(v) => Some(v@),
        None => None,
    }
}

/// What resolving `reference` against a section with the given prefix gives:
/// the position of an inline definition, or why there is none.
pub open spec fn resolution<T>(
    section: Option<Seq<(String, ReferenceOr<T>)>>,
    prefix: Seq<char>,
    reference: Seq<char>,
) -> Result<int, RefFailure> {
    if !has_prefix(reference, prefix) {
        Err(RefFailure::Malformed)
    } else {
        match section {
            None => Err(RefFailure::MissingComponents),
            Some(entries) => match find_named(entries, reference.subrange(prefix.len() as int, reference.len() as int)) {
                None => Err(RefFailure::Missing),
                Some(i) => if entries[i].1 is Item {
                    Ok(i)
                } else {
                    Err(RefFailure::Chained)
                },
            },
        }
    }
}

/// A resolved reference names an inline entry of the section.
pub proof fn lemma_resolution_in_range<T>(section: Option<Seq<(String, ReferenceOr<T>)>>, prefix: Seq<char>, reference: Seq<char>, i: int)
    requires
        resolution(section, prefix, reference) == Ok::<int, RefFailure>(i),
    ensures
        section is Some,
        0 <= i < section->0.len(),
        section->0[i].1 is Item,
{
    let entries = section->0;
    let name = reference.subrange(prefix.len() as int, reference.len() as int);
    assert(exists|k: int| is_first_named(entries, name, k));
    let k = choose|k: int| is_first_named(entries, name, k);
    assert(is_first_named(entries, name, k));
}

proof fn lemma_first_named_unique<T>(entries: Seq<(String, ReferenceOr<T>)>, name: Seq<char>, i: int, k: int)
    requires
        is_first_named(entries, name, i),
        is_first_named(entries, name, k),
    ensures
        i == k,
{
    if i < k {
        assert(entries[i].0@ != name);
    } else if k < i {
        assert(entries[k].0@ != name);
    }
}

/// The first entry of `entries` named `name`.
pub fn find_entry<T>(entries: &Vec<(String, ReferenceOr<T>)>, name: &String) -> (r: Option<usize>)
    ensures
        match r {
            Some(i) => find_named(entries@, name@) == Some(i as int),
            None => find_named(entries@, name@) is None,
        },
{
    let mut i: usize = 0;
    while i < entries.len()
        invariant
            i <= entries@.len(),
            forall|j: int| 0 <= j < i ==> entries@[j].0@ != name@,
        decreases entries@.len() - i,
    {
        if entries[i].0 == *name {
            proof {
                assert(is_first_named(entries@, name@, i as int));
                let k = choose|k: int| is_first_named(entries@, name@, k);
                lemma_first_named_unique(entries@, name@, i as int, k);
            }
            return Some(i);
        }
        i = i + 1;
    }
    None
}

/// Resolves `reference` against a component section whose references start
/// with `prefix`: one level of indirection only.
pub fn resolve_index<T>(section: Option<&Vec<(String, ReferenceOr<T>)>>, prefix: &str, reference: &String) -> (r: Result<usize, RefFailure>)
    ensures
        match r {
            Ok(i) => resolution(section_view(section), prefix@, reference@) == Ok::<int, RefFailure>(i as int),
            Err(e) => resolution(section_view(section), prefix@, reference@) == Err::<int, RefFailure>(e),
        },
{
    if !starts_with(reference.as_str(), prefix) {
        return Err(RefFailure::Malformed);
    }
    let entries = match section {
        None => {
            return Err(RefFailure::MissingComponents);
        },
        Some(entries) => entries,
    };
    let text = reference.as_str();
    let name = String::from_str(text.substring_char(prefix.unicode_len(), text.unicode_len()));
    match find_entry(entries, &name) {
        None => Err(RefFailure::Missing),
        Some(i) => match &entries[i].1 {
            ReferenceOr::Item(_) => Ok(i),
            ReferenceOr::Reference { .. } => Err(RefFailure::Chained),
        },
    }
}

/// The prefix of every reference to a named schema.
pub const SCHEMA_PREFIX: &'static str = "#/components/schemas/";

/// The prefix of every reference to a named parameter.
pub const PARAMETER_PREFIX: &'static str = "#/components/parameters/";

/// The prefix of every reference to a named request body.
pub const REQUEST_BODY_PREFIX: &'static str = "#/components/requestBodies/";

/// The prefix of every reference to a named response.
pub const RESPONSE_PREFIX: &'static str = "#/components/responses/";

/// The diagnostic for a schema reference that did not resolve.
pub open spec fn schema_ref_diagnostic(context: ContextView, f: RefFailure, reference: Seq<char>) -> Diagnostic {
    match f {
        RefFailure::Malformed => Diagnostic::MalformedSchemaReference { context, reference },
        RefFailure::MissingComponents => Diagnostic::MissingComponents,
        RefFailure::Missing => Diagnostic::MissingSchemaReference { context, reference },
        RefFailure::Chained => Diagnostic::FailedSchemaDereference { context, reference },
    }
}

pub fn schema_ref_error(context: &DiagnosticContext, f: RefFailure, reference: &String) -> (d: HeaveError)
    ensures
        d@ == schema_ref_diagnostic(context@, f, reference@),
{
    match f {
        RefFailure::Malformed => HeaveError::MalformedSchemaReference { context: context.duplicate(), reference: reference.clone() },
        RefFailure::MissingComponents => HeaveError::MissingComponents,
        RefFailure::Missing => HeaveError::MissingSchemaReference { context: context.duplicate(), reference: reference.clone() },
        RefFailure::Chained => HeaveError::FailedSchemaDereference { context: context.duplicate(), reference: reference.clone() },
    }
}

/// Whether `i` is one of the entries of `stack`.
pub fn on_stack(stack: &Vec<usize>, i: usize) -> (r: bool)
    ensures
        r == stack@.contains(i),
{
    let mut k: usize = 0;
    while k < stack.len()
        invariant
            k <= stack@.len(),
            forall|j: int| 0 <= j < k ==> stack@[j] != i,
        decreases stack@.len() - k,
    {
        if stack[k] == i {
            assert(stack@[k as int] == i);
            return true;
        }
        k = k + 1;
    }
    false
}

} // verus!

//! What holds of the synthesizers on every input.
use vstd::prelude::*;
use vstd::set_lib::{lemma_int_range, lemma_len_subset, set_int_range};
use crate::asserts::{assertion_line, child_path, closes_cycle, named_schema, ref_asserts, schema_asserts, property_asserts};
use crate::body::{combine, is_first_member, member_bodies, merge_members, property_bodies, put_member, ref_body, render, schema_body, FragmentView};
use crate::diagnostics::{ContextView, Diagnostic};
use crate::foreign::dedup;
use crate::model::{Document, ReferenceOr, Schema, SchemaKind};
use crate::resolve::{lemma_resolution_in_range, resolution, SCHEMA_PREFIX};

verus! {

/// The JSON literal that a primitive schema kind synthesizes.
pub open spec fn primitive_literal(kind: SchemaKind) -> Seq<char> {
    match kind {
        SchemaKind::Boolean => "false"@,
        SchemaKind::String => seq!['"', '"'],
        _ => seq!['0'],
    }
}

pub open spec fn is_primitive(kind: SchemaKind) -> bool {
    kind is Boolean || kind is String || kind is Number || kind is Integer
}

/// A primitive schema that is not read-only synthesizes, with no diagnostic,
/// the JSON literal of its own type: `false` for a boolean, `""` for a
/// string, `0` for a number or an integer.
pub proof fn law_primitive_body_literal(doc: Document, ctx: ContextView, schema: Schema, path: Seq<char>, stack: Seq<usize>)
    requires
        !schema.read_only,
        is_primitive(schema.kind),
    ensures
        schema_body(doc, ctx, schema, path, stack) == (
            Some(FragmentView::Value(primitive_literal(schema.kind))),
            Seq::<Diagnostic>::empty(),
        ),
        render(FragmentView::Value(primitive_literal(schema.kind))) == primitive_literal(schema.kind),
{
}

/// The schema that a possibly-referenced schema stands for, when it
/// resolves.
pub open spec fn target(doc: Document, r: ReferenceOr<Schema>) -> Option<Schema> {
    match r {
        ReferenceOr::Item(s) => Some(s),
        ReferenceOr::Reference { reference } => match resolution(doc.schema_section(), SCHEMA_PREFIX@, reference@) {
            Ok(i) => Some(named_schema(doc, i)),
            Err(_) => None,
        },
    }
}

/// A write-only schema yields no assertion and no diagnostic, wherever it
/// stands: the synthesizer meets it the same way at the root, as a property,
/// as an array element or as an `allOf` member, at any depth.
pub proof fn law_write_only_yields_nothing(
    doc: Document,
    ctx: ContextView,
    schema: Schema,
    path: Seq<char>,
    required: bool,
    stack: Seq<usize>,
)
    requires
        schema.write_only,
    ensures
        schema_asserts(doc, ctx, schema, path, required, stack) == (Seq::<Seq<char>>::empty(), Seq::<Diagnostic>::empty()),
{
}

/// A property, inline or referenced, whose schema is write-only adds no
/// assertion to its object: the object's assertions are those of its other
/// properties.
pub proof fn law_write_only_property_absent(
    doc: Document,
    ctx: ContextView,
    props: Seq<(String, ReferenceOr<Schema>)>,
    required_names: Seq<String>,
    name: String,
    r: ReferenceOr<Schema>,
    path: Seq<char>,
    required: bool,
    stack: Seq<usize>,
)
    requires
        target(doc, r) matches Some(s) && s.write_only,
    ensures
        property_asserts(doc, ctx, props.push((name, r)), required_names, path, required, stack).0 == property_asserts(
            doc,
            ctx,
            props,
            required_names,
            path,
            required,
            stack,
        ).0,
{
    let all = props.push((name, r));
    assert(all.subrange(0, all.len() - 1) =~= props);
    let cpath = child_path(path, name@);
    let req = required && crate::asserts::names_contain(required_names, name@);
    let cur = ref_asserts(doc, ctx, r, cpath, req, stack);
    match r {
        ReferenceOr::Item(s) => {
            law_write_only_yields_nothing(doc, ctx, s, cpath, req, stack);
        },
        ReferenceOr::Reference { reference } => {
            let i = resolution(doc.schema_section(), SCHEMA_PREFIX@, reference@)->Ok_0;
            law_write_only_yields_nothing(doc, ctx, named_schema(doc, i), cpath, req, stack.push(i as usize));
        },
    }
    assert(cur.0 =~= Seq::<Seq<char>>::empty());
    let prev = property_asserts(doc, ctx, props, required_names, path, required, stack);
    assert(prev.0 + cur.0 =~= prev.0);
}

/// A read-only schema yields no request-body fragment and no diagnostic,
/// wherever it stands, at any depth.
pub proof fn law_read_only_yields_nothing(doc: Document, ctx: ContextView, schema: Schema, path: Seq<char>, stack: Seq<usize>)
    requires
        schema.read_only,
    ensures
        schema_body(doc, ctx, schema, path, stack) == (None::<FragmentView>, Seq::<Diagnostic>::empty()),
{
}

/// A property, inline or referenced, whose schema is read-only is left out
/// of its object's request body: the object's members are those of its
/// other properties.
pub proof fn law_read_only_property_absent(
    doc: Document,
    ctx: ContextView,
    props: Seq<(String, ReferenceOr<Schema>)>,
    name: String,
    r: ReferenceOr<Schema>,
    path: Seq<char>,
    stack: Seq<usize>,
)
    requires
        target(doc, r) matches Some(s) && s.read_only,
    ensures
        property_bodies(doc, ctx, props.push((name, r)), path, stack).0 == property_bodies(doc, ctx, props, path, stack).0,
{
    let all = props.push((name, r));
    assert(all.subrange(0, all.len() - 1) =~= props);
    let cpath = child_path(path, name@);
    match r {
        ReferenceOr::Item(s) => {
            law_read_only_yields_nothing(doc, ctx, s, cpath, stack);
        },
        ReferenceOr::Reference { reference } => {
            let i = resolution(doc.schema_section(), SCHEMA_PREFIX@, reference@)->Ok_0;
            law_read_only_yields_nothing(doc, ctx, named_schema(doc, i), cpath, stack.push(i as usize));
        },
    }
    assert(ref_body(doc, ctx, r, cpath, stack).0 is None);
}

/// Reaching again a named schema that is still open stops that branch with
/// exactly one cycle diagnostic, at the path where it was reached, and
/// nothing else: no assertion, no fragment.
pub proof fn law_cycle_stops_branch(
    doc: Document,
    ctx: ContextView,
    r: ReferenceOr<Schema>,
    path: Seq<char>,
    required: bool,
    stack: Seq<usize>,
    i: int,
)
    requires
        r matches ReferenceOr::Reference { reference } && resolution(doc.schema_section(), SCHEMA_PREFIX@, reference@) == Ok::<
            int,
            crate::resolve::RefFailure,
        >(i),
        stack.contains(i as usize),
    ensures
        ref_asserts(doc, ctx, r, path, required, stack) == (
            Seq::<Seq<char>>::empty(),
            seq![Diagnostic::ResponseBodySchemaCycleDetected { context: ctx, jsonpath: path }],
        ),
        ref_body(doc, ctx, r, path, stack) == (
            None::<FragmentView>,
            seq![Diagnostic::RequestBodySchemaCycleDetected { context: ctx, jsonpath: path }],
        ),
{
}

/// An object schema whose one property refers back to the object itself
/// yields, from outside, its own collection assertion and then exactly one
/// cycle diagnostic, at the property's path.
pub proof fn law_self_reference_one_cycle(
    doc: Document,
    ctx: ContextView,
    r: ReferenceOr<Schema>,
    path: Seq<char>,
    required: bool,
    i: int,
)
    requires
        r matches ReferenceOr::Reference { reference } && resolution(doc.schema_section(), SCHEMA_PREFIX@, reference@) == Ok::<
            int,
            crate::resolve::RefFailure,
        >(i),
        !named_schema(doc, i).write_only,
        named_schema(doc, i).kind matches SchemaKind::Object(ob) && ob.properties@.len() == 1 && ob.properties@[0].1 == r,
    ensures
        ({
            let name = named_schema(doc, i).kind->Object_0.properties@[0].0@;
            ref_asserts(doc, ctx, r, path, required, Seq::empty()) == (
                seq![assertion_line(path, "isCollection"@, required)],
                seq![Diagnostic::ResponseBodySchemaCycleDetected { context: ctx, jsonpath: child_path(path, name) }],
            )
        }),
{
    let reference = r->reference;
    lemma_resolution_in_range(doc.schema_section(), SCHEMA_PREFIX@, reference@, i);
    let s = named_schema(doc, i);
    let ob = s.kind->Object_0;
    let props = ob.properties@;
    let stack = Seq::<usize>::empty().push(i as usize);
    assert(stack.contains(i as usize)) by {
        assert(stack[0] == i as usize);
    }
    assert(!closes_cycle(doc, Seq::empty(), i)) by {
        assert(doc.components is Some);
        assert(0 <= i < doc.schema_count());
    }
    assert(props.subrange(0, 0) =~= Seq::<(String, ReferenceOr<Schema>)>::empty());
    assert(props.subrange(0, props.len() - 1) =~= Seq::<(String, ReferenceOr<Schema>)>::empty());
    let one = property_asserts(doc, ctx, props, ob.required@, path, required, stack);
    let cpath = child_path(path, props[0].0@);
    let creq = required && crate::asserts::names_contain(ob.required@, props[0].0@);
    assert(closes_cycle(doc, stack, i));
    assert(ref_asserts(doc, ctx, r, cpath, creq, stack) == (
        Seq::<Seq<char>>::empty(),
        seq![Diagnostic::ResponseBodySchemaCycleDetected { context: ctx, jsonpath: cpath }],
    ));
    assert(property_asserts(doc, ctx, props.subrange(0, 0), ob.required@, path, required, stack) == (
        Seq::<Seq<char>>::empty(),
        Seq::<Diagnostic>::empty(),
    ));
    assert(one.0 =~= Seq::<Seq<char>>::empty());
    assert(one.1 =~= seq![Diagnostic::ResponseBodySchemaCycleDetected { context: ctx, jsonpath: child_path(path, props[0].0@) }]);
    assert(seq![assertion_line(path, "isCollection"@, required)] + one.0 =~= seq![assertion_line(path, "isCollection"@, required)]);
}

/// Whether `stack` holds distinct positions of named schemas.
pub open spec fn well_formed_stack(doc: Document, stack: Seq<usize>) -> bool {
    &&& stack.no_duplicates()
    &&& forall|k: int| 0 <= k < stack.len() ==> stack[k] < doc.schema_count()
}

/// On a well-formed stack the bound on its length never decides: a named
/// schema closes a cycle exactly when it is already open.
pub proof fn law_cycle_guard_is_reentry(doc: Document, stack: Seq<usize>, i: int)
    requires
        well_formed_stack(doc, stack),
        0 <= i < doc.schema_count(),
    ensures
        closes_cycle(doc, stack, i) == stack.contains(i as usize),
{
    let n = doc.schema_count();
    if !stack.contains(i as usize) && stack.len() >= n {
        let s = stack.map_values(|x: usize| x as int);
        assert(s.no_duplicates()) by {
            assert forall|a: int, b: int| 0 <= a < s.len() && 0 <= b < s.len() && a != b implies s[a] != s[b] by {
                assert(stack[a] != stack[b]);
            }
        }
        s.unique_seq_to_set();
        let r = set_int_range(0, n).remove(i);
        lemma_int_range(0, n);
        assert(s.to_set().subset_of(r)) by {
            assert forall|x: int| s.to_set().contains(x) implies r.contains(x) by {
                let k = choose|k: int| 0 <= k < s.len() && s[k] == x;
                assert(stack[k] < n);
                assert(stack[k] != i as usize);
            }
        }
        lemma_len_subset(s.to_set(), r);
        assert(set_int_range(0, n).contains(i));
    }
}

/// Opening a named schema that does not close a cycle keeps the stack
/// well-formed, so every stack that a traversal from an empty one reaches is.
pub proof fn law_open_keeps_stack_well_formed(doc: Document, stack: Seq<usize>, i: int)
    requires
        well_formed_stack(doc, stack),
        0 <= i < doc.schema_count(),
        !closes_cycle(doc, stack, i),
    ensures
        well_formed_stack(doc, stack.push(i as usize)),
{
    let t = stack.push(i as usize);
    assert forall|a: int, b: int| 0 <= a < t.len() && 0 <= b < t.len() && a != b implies t[a] != t[b] by {
        if a == stack.len() {
            assert(t[b] == stack[b]);
        } else if b == stack.len() {
            assert(t[a] == stack[a]);
        }
    }
}

/// An `allOf` of two objects with distinct, disjoint member names
/// synthesizes a single object holding the members of both, first those of
/// the first member, then those of the second.
pub proof fn law_all_of_disjoint_union(
    doc: Document,
    ctx: ContextView,
    schema: Schema,
    path: Seq<char>,
    stack: Seq<usize>,
    a: Seq<(Seq<char>, Seq<char>)>,
    b: Seq<(Seq<char>, Seq<char>)>,
)
    requires
        !schema.read_only,
        schema.kind matches SchemaKind::AllOf(ms) && ms@.len() == 2 && ref_body(doc, ctx, ms@[0], path, stack).0 == Some(
            FragmentView::Object(a),
        ) && ref_body(doc, ctx, ms@[1], path, stack).0 == Some(FragmentView::Object(b)),
        distinct_names(a),
        distinct_names(b),
        disjoint_names(a, b),
        a.len() + b.len() > 0,
    ensures
        schema_body(doc, ctx, schema, path, stack).0 == Some(FragmentView::Object(a + b)),
{
    law_all_of_two_objects(doc, ctx, schema, path, stack, a, b);
    law_merge_disjoint(Seq::empty(), a);
    assert(Seq::<(Seq<char>, Seq<char>)>::empty() + a =~= a);
    law_merge_disjoint(a, b);
}

/// In an `allOf` of two objects, a member name that the second object gives
/// takes the second object's value, whatever the first gave it; any other
/// name keeps the first object's value.
pub proof fn law_all_of_second_wins(
    doc: Document,
    ctx: ContextView,
    schema: Schema,
    path: Seq<char>,
    stack: Seq<usize>,
    a: Seq<(Seq<char>, Seq<char>)>,
    b: Seq<(Seq<char>, Seq<char>)>,
    k: Seq<char>,
)
    requires
        !schema.read_only,
        schema.kind matches SchemaKind::AllOf(ms) && ms@.len() == 2 && ref_body(doc, ctx, ms@[0], path, stack).0 == Some(
            FragmentView::Object(a),
        ) && ref_body(doc, ctx, ms@[1], path, stack).0 == Some(FragmentView::Object(b)),
        lookup(a, k) is Some || last_value(b, k) is Some,
    ensures
        schema_body(doc, ctx, schema, path, stack).0 matches Some(FragmentView::Object(m)) && lookup(m, k) == match last_value(b, k) {
            Some(v) => Some(v),
            None => last_value(a, k),
        },
{
    law_all_of_two_objects(doc, ctx, schema, path, stack, a, b);
    let empty = Seq::<(Seq<char>, Seq<char>)>::empty();
    law_merge_last_wins(empty, a, k);
    law_merge_last_wins(merge_members(empty, a), b, k);
    assert(!exists|i: int| is_first_member(empty, k, i));
    let merged = merge_members(merge_members(empty, a), b);
    if merged.len() == 0 {
        assert(!exists|i: int| is_first_member(merged, k, i));
    }
    lemma_lookup_is_last_value(a, k);
}

/// A name that has a first member also has a last one.
proof fn lemma_lookup_is_last_value(a: Seq<(Seq<char>, Seq<char>)>, k: Seq<char>)
    ensures
        lookup(a, k) is Some ==> last_value(a, k) is Some,
{
    if lookup(a, k) is Some {
        let i = choose|i: int| is_first_member(a, k, i);
        lemma_has_last(a, k, i);
    }
}

proof fn lemma_has_last(a: Seq<(Seq<char>, Seq<char>)>, k: Seq<char>, i: int)
    requires
        0 <= i < a.len(),
        a[i].0 == k,
    ensures
        last_value(a, k) is Some,
    decreases a.len(),
{
    if a.last().0 != k {
        lemma_has_last(a.drop_last(), k, i);
    }
}

/// A sequence without repeats is its own de-duplication.
pub proof fn lemma_dedup_of_distinct(s: Seq<Seq<char>>)
    requires
        s.no_duplicates(),
    ensures
        dedup(s) == s,
    decreases s.len(),
{
    if s.len() > 0 {
        let p = s.drop_last();
        assert(p.no_duplicates());
        lemma_dedup_of_distinct(p);
        assert(!p.contains(s.last())) by {
            if p.contains(s.last()) {
                let j = choose|j: int| 0 <= j < p.len() && p[j] == s.last();
                assert(s[j] == s[s.len() - 1]);
            }
        }
        assert(p.push(s.last()) =~= s);
    }
}

/// What de-duplication keeps: no repeats, and exactly the elements of `s`.
pub proof fn lemma_dedup_distinct(s: Seq<Seq<char>>)
    ensures
        dedup(s).no_duplicates(),
        forall|x: Seq<char>| dedup(s).contains(x) <==> s.contains(x),
    decreases s.len(),
{
    if s.len() > 0 {
        let p = s.drop_last();
        lemma_dedup_distinct(p);
        let d = dedup(p);
        assert forall|x: Seq<char>| dedup(s).contains(x) <==> s.contains(x) by {
            if s.contains(x) && x != s.last() {
                let j = choose|j: int| 0 <= j < s.len() && s[j] == x;
                assert(p[j] == x);
            }
            if p.contains(x) {
                let j = choose|j: int| 0 <= j < p.len() && p[j] == x;
                assert(s[j] == x);
            }
            if !d.contains(s.last()) {
                assert(d.push(s.last())[d.len() as int] == s.last());
                if d.push(s.last()).contains(x) {
                    let j = choose|j: int| 0 <= j < d.len() + 1 && d.push(s.last())[j] == x;
                    if j < d.len() {
                        assert(d[j] == x);
                    }
                }
                if d.contains(x) {
                    let j = choose|j: int| 0 <= j < d.len() && d[j] == x;
                    assert(d.push(s.last())[j] == x);
                }
            }
            assert(s[s.len() - 1] == s.last());
        }
    }
}

/// Assertion generation is repeatable: two runs on the same schema and path
/// give the same assertions once de-duplicated, and de-duplicating again
/// changes nothing.
pub proof fn law_assertions_repeatable(
    first: Seq<Seq<char>>,
    second: Seq<Seq<char>>,
    doc: Document,
    ctx: ContextView,
    schema: Schema,
    path: Seq<char>,
    required: bool,
)
    requires
        first == schema_asserts(doc, ctx, schema, path, required, Seq::empty()).0,
        second == schema_asserts(doc, ctx, schema, path, required, Seq::empty()).0,
    ensures
        dedup(first) == dedup(second),
        dedup(dedup(first)) == dedup(first),
{
    lemma_dedup_distinct(first);
    lemma_dedup_of_distinct(dedup(first));
}

/// The value of the first member of `s` named `k`, if there is one.
pub open spec fn lookup(s: Seq<(Seq<char>, Seq<char>)>, k: Seq<char>) -> Option<Seq<char>> {
    if exists|i: int| is_first_member(s, k, i) {
        Some(s[choose|i: int| is_first_member(s, k, i)].1)
    } else {
        None
    }
}

/// The value of the last member of `s` named `k`, if there is one.
pub open spec fn last_value(s: Seq<(Seq<char>, Seq<char>)>, k: Seq<char>) -> Option<Seq<char>>
    decreases s.len(),
{
    if s.len() == 0 {
        None
    } else if s.last().0 == k {
        Some(s.last().1)
    } else {
        last_value(s.drop_last(), k)
    }
}

/// Whether the members of `s` have distinct names.
pub open spec fn distinct_names(s: Seq<(Seq<char>, Seq<char>)>) -> bool {
    forall|i: int, j: int| 0 <= i < j < s.len() ==> s[i].0 != s[j].0
}

/// Whether no member of `a` has the name of a member of `b`.
pub open spec fn disjoint_names(a: Seq<(Seq<char>, Seq<char>)>, b: Seq<(Seq<char>, Seq<char>)>) -> bool {
    forall|i: int, j: int| 0 <= i < a.len() && 0 <= j < b.len() ==> a[i].0 != b[j].0
}

proof fn lemma_first_exists(s: Seq<(Seq<char>, Seq<char>)>, k: Seq<char>, i: int)
    requires
        0 <= i < s.len(),
        s[i].0 == k,
    ensures
        exists|j: int| is_first_member(s, k, j),
    decreases i,
{
    if exists|j: int| 0 <= j < i && s[j].0 == k {
        let j = choose|j: int| 0 <= j < i && s[j].0 == k;
        lemma_first_exists(s, k, j);
    } else {
        assert(is_first_member(s, k, i));
    }
}

proof fn lemma_first_unique(s: Seq<(Seq<char>, Seq<char>)>, k: Seq<char>, i: int, j: int)
    requires
        is_first_member(s, k, i),
        is_first_member(s, k, j),
    ensures
        i == j,
{
    if i < j {
        assert(s[i].0 != k);
    } else if j < i {
        assert(s[j].0 != k);
    }
}

/// Looking up `k` after setting member `m`: the new value where `k` is its
/// name, the old lookup otherwise.
pub proof fn lemma_put_lookup(s: Seq<(Seq<char>, Seq<char>)>, m: (Seq<char>, Seq<char>), k: Seq<char>)
    ensures
        lookup(put_member(s, m), k) == if k == m.0 {
            Some(m.1)
        } else {
            lookup(s, k)
        },
{
    let t = put_member(s, m);
    if exists|i: int| is_first_member(s, m.0, i) {
        let i = choose|i: int| is_first_member(s, m.0, i);
        assert(t == s.update(i, m));
        assert forall|j: int| #[trigger] is_first_member(t, k, j) <==> is_first_member(s, k, j) by {
            assert forall|x: int| 0 <= x < s.len() implies t[x].0 == s[x].0 by {}
        }
        if k == m.0 {
            assert(is_first_member(t, k, i));
            let c = choose|c: int| is_first_member(t, k, c);
            lemma_first_unique(t, k, i, c);
        } else if exists|j: int| is_first_member(s, k, j) {
            let j = choose|j: int| is_first_member(s, k, j);
            assert(is_first_member(t, k, j));
            let c = choose|c: int| is_first_member(t, k, c);
            lemma_first_unique(t, k, j, c);
            assert(j != i);
        }
    } else {
        assert(t == s.push(m));
        assert forall|x: int| 0 <= x < s.len() implies s[x].0 != m.0 by {
            if s[x].0 == m.0 {
                lemma_first_exists(s, m.0, x);
            }
        }
        if k == m.0 {
            assert(is_first_member(t, k, s.len() as int));
            let c = choose|c: int| is_first_member(t, k, c);
            lemma_first_unique(t, k, s.len() as int, c);
        } else {
            assert forall|j: int| #[trigger] is_first_member(t, k, j) <==> is_first_member(s, k, j) by {
                assert forall|x: int| 0 <= x < s.len() implies t[x] == s[x] by {}
                assert(t[s.len() as int].0 == m.0);
            }
            if exists|j: int| is_first_member(s, k, j) {
                let j = choose|j: int| is_first_member(s, k, j);
                let c = choose|c: int| is_first_member(t, k, c);
                lemma_first_unique(t, k, j, c);
            }
        }
    }
}

/// Merging is last-wins: after merging `more` into `acc`, a name carries the
/// value of its last member in `more`, or, where `more` does not name it, its
/// value in `acc`.
pub proof fn law_merge_last_wins(acc: Seq<(Seq<char>, Seq<char>)>, more: Seq<(Seq<char>, Seq<char>)>, k: Seq<char>)
    ensures
        lookup(merge_members(acc, more), k) == match last_value(more, k) {
            Some(v) => Some(v),
            None => lookup(acc, k),
        },
    decreases more.len(),
{
    if more.len() > 0 {
        let prev = more.subrange(0, more.len() - 1);
        assert(prev =~= more.drop_last());
        law_merge_last_wins(acc, prev, k);
        lemma_put_lookup(merge_members(acc, prev), more[more.len() - 1], k);
    }
}

/// Merging members whose names are new and distinct appends them in order.
pub proof fn law_merge_disjoint(acc: Seq<(Seq<char>, Seq<char>)>, more: Seq<(Seq<char>, Seq<char>)>)
    requires
        distinct_names(more),
        disjoint_names(acc, more),
    ensures
        merge_members(acc, more) == acc + more,
    decreases more.len(),
{
    if more.len() > 0 {
        let prev = more.subrange(0, more.len() - 1);
        law_merge_disjoint(acc, prev);
        let m = more[more.len() - 1];
        let s = acc + prev;
        assert forall|i: int| !is_first_member(s, m.0, i) by {
            if 0 <= i < s.len() && s[i].0 == m.0 {
                if i < acc.len() {
                    assert(acc[i].0 != more[more.len() - 1].0);
                } else {
                    assert(prev[i - acc.len()] == more[i - acc.len()]);
                }
            }
        }
        assert(put_member(s, m) == s.push(m));
        assert(s.push(m) =~= acc + more);
    }
}

/// An `allOf` of two members that both synthesize objects synthesizes one
/// object: the members of the first merged with those of the second, or
/// nothing where the merge is empty. With the laws on `merge_members`, the
/// result holds the union of both, and a name that both give takes the
/// value of the second.
pub proof fn law_all_of_two_objects(
    doc: Document,
    ctx: ContextView,
    schema: Schema,
    path: Seq<char>,
    stack: Seq<usize>,
    a: Seq<(Seq<char>, Seq<char>)>,
    b: Seq<(Seq<char>, Seq<char>)>,
)
    requires
        !schema.read_only,
        schema.kind matches SchemaKind::AllOf(ms) && ms@.len() == 2 && ref_body(doc, ctx, ms@[0], path, stack).0 == Some(
            FragmentView::Object(a),
        ) && ref_body(doc, ctx, ms@[1], path, stack).0 == Some(FragmentView::Object(b)),
    ensures
        schema_body(doc, ctx, schema, path, stack).0 == combine(
            Seq::empty(),
            merge_members(merge_members(Seq::empty(), a), b),
        ),
{
    let ms = schema.kind->AllOf_0@;
    assert(ms.subrange(0, 1).subrange(0, 0) =~= Seq::<ReferenceOr<Schema>>::empty());
    assert(ms.subrange(0, 1)[0] == ms[0]);
    assert(ms.subrange(0, 2) =~= ms);
    let none = member_bodies(doc, ctx, Seq::<ReferenceOr<Schema>>::empty(), path, stack);
    assert(none.0 =~= Seq::<Seq<char>>::empty());
    assert(none.1 =~= Seq::<(Seq<char>, Seq<char>)>::empty());
    let one = ms.subrange(0, 1);
    assert(one.subrange(0, one.len() - 1) =~= Seq::<ReferenceOr<Schema>>::empty());
    assert(one[one.len() - 1] == ms[0]);
    let first = member_bodies(doc, ctx, one, path, stack);
    assert(first.0 =~= Seq::<Seq<char>>::empty());
    assert(first.1 == merge_members(Seq::empty(), a));
}

} // verus!

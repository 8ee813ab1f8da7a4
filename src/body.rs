//! The request-body synthesizer: from a request schema to a JSON literal.
use vstd::prelude::*;
use crate::asserts::{child_path, closes_cycle, named_schema, open_budget, push_unsupported, path_below, unsupported};
use crate::diagnostics::{diagnostics_view, ContextView, Diagnostic, DiagnosticContext, HeaveError, UnsupportedKind};
use crate::model::{Document, ReferenceOr, Schema, SchemaKind};
use crate::resolve::{on_stack, resolution, resolve_index, schema_ref_diagnostic, schema_ref_error, SCHEMA_PREFIX};
use crate::text::{cat, join, join_texts, replace_all, replace_char, texts};

verus! {

/// A synthesized piece of a request body.
pub enum Fragment {
    /// An object, as its members: each a name and the JSON text of its value.
    Object(Vec<(String, String)>),
    /// Any other JSON text.
    Value(String),
}

/// A fragment, with its text as character sequences.
pub enum FragmentView {
    Object(Seq<(Seq<char>, Seq<char>)>),
    Value(Seq<char>),
}

/// The views of a sequence of object members.
pub open spec fn members_view(s: Seq<(String, String)>) -> Seq<(Seq<char>, Seq<char>)> {
    s.map_values(|m: (String, String)| (m.0@, m.1@))
}

impl View for Fragment {
    type V = FragmentView;

    open spec fn view(&self) -> FragmentView {
        match self {
            Fragment::Object(m) => FragmentView::Object(members_view(m@)),
            Fragment::Value(t) => FragmentView::Value(t@),
        }
    }
}

pub open spec fn option_view(f: Option<Fragment>) -> Option<FragmentView> {
    match f {
        Some(x) => Some(x@),
        None => None,
    }
}

/// A member name as it stands inside a JSON string.
pub open spec fn escape_name(name: Seq<char>) -> Seq<char> {
    replace_char(replace_char(name, '\\', seq!['\\', '\\']), '"', seq!['\\', '"'])
}

/// The text of one object member.
pub open spec fn member_text(m: (Seq<char>, Seq<char>)) -> Seq<char> {
    seq!['"'] + escape_name(m.0) + seq!['"', ':', ' '] + m.1
}

pub open spec fn member_texts(s: Seq<(Seq<char>, Seq<char>)>) -> Seq<Seq<char>> {
    s.map_values(|m: (Seq<char>, Seq<char>)| member_text(m))
}

/// The JSON text of an object with the given members.
pub open spec fn render_object(s: Seq<(Seq<char>, Seq<char>)>) -> Seq<char> {
    seq!['{'] + join(member_texts(s), seq![',']) + seq!['}']
}

/// The JSON text of a fragment.
pub open spec fn render(f: FragmentView) -> Seq<char> {
    match f {
        FragmentView::Object(s) => render_object(s),
        FragmentView::Value(t) => t,
    }
}

/// `i` is the first member of `s` named `name`.
pub open spec fn is_first_member(s: Seq<(Seq<char>, Seq<char>)>, name: Seq<char>, i: int) -> bool {
    &&& 0 <= i < s.len()
    &&& s[i].0 == name
    &&& forall|j: int| 0 <= j < i ==> s[j].0 != name
}

/// The member `m` set in `s`: it replaces the value of the first member of
/// that name, in place, or is added at the end.
pub open spec fn put_member(s: Seq<(Seq<char>, Seq<char>)>, m: (Seq<char>, Seq<char>)) -> Seq<(Seq<char>, Seq<char>)> {
    if exists|i: int| is_first_member(s, m.0, i) {
        s.update(choose|i: int| is_first_member(s, m.0, i), m)
    } else {
        s.push(m)
    }
}

/// The members of `acc` merged with those of `more`, left to right: where a
/// name occurs in both, the later value wins and the earlier position stays.
pub open spec fn merge_members(acc: Seq<(Seq<char>, Seq<char>)>, more: Seq<(Seq<char>, Seq<char>)>) -> Seq<(Seq<char>, Seq<char>)>
    decreases more.len(),
{
    if more.len() == 0 {
        acc
    } else {
        put_member(merge_members(acc, more.subrange(0, more.len() - 1)), more[more.len() - 1])
    }
}

/// What an `allOf` yields from its members' non-object texts and merged
/// object members: nothing, the merged object, or the texts in order with the
/// merged object last, one after another.
pub open spec fn combine(siblings: Seq<Seq<char>>, members: Seq<(Seq<char>, Seq<char>)>) -> Option<FragmentView> {
    if siblings.len() == 0 {
        if members.len() == 0 {
            None
        } else {
            Some(FragmentView::Object(members))
        }
    } else {
        let all = if members.len() == 0 {
            siblings
        } else {
            siblings.push(render_object(members))
        };
        Some(FragmentView::Value(join(all, seq![',', '\n'])))
    }
}

/// The fragment and diagnostics for `schema` at `path`, with the named
/// schemas of `stack` open.
pub open spec fn schema_body(doc: Document, ctx: ContextView, schema: Schema, path: Seq<char>, stack: Seq<usize>) -> (
    Option<FragmentView>,
    Seq<Diagnostic>,
)
    decreases open_budget(doc, stack), schema, 0int,
{
    if schema.read_only {
        (None, Seq::empty())
    } else {
        match schema.kind {
            SchemaKind::Boolean => (Some(FragmentView::Value("false"@)), Seq::empty()),
            SchemaKind::String => (Some(FragmentView::Value(seq!['"', '"'])), Seq::empty()),
            SchemaKind::Number => (Some(FragmentView::Value(seq!['0'])), Seq::empty()),
            SchemaKind::Integer => (Some(FragmentView::Value(seq!['0'])), Seq::empty()),
            SchemaKind::Array(items) => match items {
                None => (None, Seq::empty()),
                Some(b) => {
                    let r = ref_body(doc, ctx, *b, path + seq!['[', ']'], stack);
                    match r.0 {
                        Some(f) => (Some(FragmentView::Value(seq!['['] + render(f) + seq![']'])), r.1),
                        None => (None, r.1),
                    }
                },
            },
            SchemaKind::Object(ob) => {
                let r = property_bodies(doc, ctx, ob.properties@, path, stack);
                (Some(FragmentView::Object(r.0)), r.1)
            },
            SchemaKind::AllOf(members) => {
                let r = member_bodies(doc, ctx, members@, path, stack);
                (combine(r.0, r.1), r.2)
            },
            SchemaKind::OneOf => (None, seq![unsupported(ctx, UnsupportedKind::OneOf, path)]),
            SchemaKind::AnyOf => (None, seq![unsupported(ctx, UnsupportedKind::AnyOf, path)]),
            SchemaKind::Not => (None, seq![unsupported(ctx, UnsupportedKind::Not, path)]),
            SchemaKind::Any => (None, seq![unsupported(ctx, UnsupportedKind::Any, path)]),
        }
    }
}

/// The fragment and diagnostics for a possibly-referenced schema.
pub open spec fn ref_body(doc: Document, ctx: ContextView, r: ReferenceOr<Schema>, path: Seq<char>, stack: Seq<usize>) -> (
    Option<FragmentView>,
    Seq<Diagnostic>,
)
    decreases open_budget(doc, stack), r, 0int,
{
    match r {
        ReferenceOr::Item(s) => schema_body(doc, ctx, s, path, stack),
        ReferenceOr::Reference { reference } => match resolution(doc.schema_section(), SCHEMA_PREFIX@, reference@) {
            Err(f) => (None, seq![schema_ref_diagnostic(ctx, f, reference@)]),
            Ok(i) => if closes_cycle(doc, stack, i) {
                (None, seq![Diagnostic::RequestBodySchemaCycleDetected { context: ctx, jsonpath: path }])
            } else {
                schema_body(doc, ctx, named_schema(doc, i), path, stack.push(i as usize))
            },
        },
    }
}

/// The members and diagnostics of the properties of an object, in order; a
/// property that yields nothing is left out.
pub open spec fn property_bodies(
    doc: Document,
    ctx: ContextView,
    props: Seq<(String, ReferenceOr<Schema>)>,
    path: Seq<char>,
    stack: Seq<usize>,
) -> (Seq<(Seq<char>, Seq<char>)>, Seq<Diagnostic>)
    decreases open_budget(doc, stack), props, props.len(),
{
    if props.len() == 0 {
        (Seq::empty(), Seq::empty())
    } else {
        let last = props[props.len() - 1];
        let prev = property_bodies(doc, ctx, props.subrange(0, props.len() - 1), path, stack);
        let cur = ref_body(doc, ctx, last.1, child_path(path, last.0@), stack);
        match cur.0 {
            Some(f) => (prev.0.push((last.0@, render(f))), prev.1 + cur.1),
            None => (prev.0, prev.1 + cur.1),
        }
    }
}

/// The non-object texts, the merged object members and the diagnostics of
/// the members of an `allOf`, in order.
pub open spec fn member_bodies(
    doc: Document,
    ctx: ContextView,
    members: Seq<ReferenceOr<Schema>>,
    path: Seq<char>,
    stack: Seq<usize>,
) -> (Seq<Seq<char>>, Seq<(Seq<char>, Seq<char>)>, Seq<Diagnostic>)
    decreases open_budget(doc, stack), members, members.len(),
{
    if members.len() == 0 {
        (Seq::empty(), Seq::empty(), Seq::empty())
    } else {
        let prev = member_bodies(doc, ctx, members.subrange(0, members.len() - 1), path, stack);
        let cur = ref_body(doc, ctx, members[members.len() - 1], path, stack);
        match cur.0 {
            Some(FragmentView::Object(m)) => (prev.0, merge_members(prev.1, m), prev.2 + cur.1),
            Some(FragmentView::Value(t)) => (prev.0.push(t), prev.1, prev.2 + cur.1),
            None => (prev.0, prev.1, prev.2 + cur.1),
        }
    }
}

/// A member name as it stands inside a JSON string.
pub fn escape(name: &String) -> (r: String)
    ensures
        r@ == escape_name(name@),
{
    proof {
        reveal_strlit("\\\\");
        reveal_strlit("\\\"");
    }
    assert("\\\\"@ =~= seq!['\\', '\\']);
    assert("\\\""@ =~= seq!['\\', '"']);
    let step = replace_all(name.as_str(), '\\', "\\\\");
    replace_all(step.as_str(), '"', "\\\"")
}

/// The JSON text of an object with the members `m`.
pub fn render_members(m: &Vec<(String, String)>) -> (r: String)
    ensures
        r@ == render_object(members_view(m@)),
{
    let mut lines: Vec<String> = Vec::new();
    let mut k: usize = 0;
    while k < m.len()
        invariant
            k <= m@.len(),
            texts(lines@) == member_texts(members_view(m@.subrange(0, k as int))),
        decreases m@.len() - k,
    {
        proof {
            reveal_strlit("\"");
            reveal_strlit("\": ");
        }
        assert("\""@ =~= seq!['"']);
        assert("\": "@ =~= seq!['"', ':', ' ']);
        let line = cat("\"", escape(&m[k].0).as_str()).concat("\": ").concat(m[k].1.as_str());
        assert(line@ =~= member_text(members_view(m@)[k as int]));
        let ghost before = lines@;
        lines.push(line);
        proof {
            let prev = members_view(m@.subrange(0, k as int));
            let next = members_view(m@.subrange(0, k + 1));
            assert(next =~= prev.push(members_view(m@)[k as int]));
            assert(member_texts(next) =~= member_texts(prev).push(member_text(members_view(m@)[k as int])));
            assert(texts(lines@) =~= texts(before).push(line@));
            assert(texts(lines@) =~= member_texts(members_view(m@.subrange(0, k + 1))));
        }
        k = k + 1;
    }
    assert(m@.subrange(0, m@.len() as int) =~= m@);
    proof {
        reveal_strlit("{");
        reveal_strlit("}");
        reveal_strlit(",");
    }
    assert("{"@ =~= seq!['{']);
    assert("}"@ =~= seq!['}']);
    assert(","@ =~= seq![',']);
    let inner = join_texts(&lines, ",");
    let r = cat("{", inner.as_str()).concat("}");
    assert(r@ =~= render_object(members_view(m@)));
    r
}

/// The JSON text of a fragment.
pub fn render_fragment(f: &Fragment) -> (r: String)
    ensures
        r@ == render(f@),
{
    match f {
        Fragment::Object(m) => render_members(m),
        Fragment::Value(t) => t.clone(),
    }
}

proof fn lemma_first_member_unique(s: Seq<(Seq<char>, Seq<char>)>, name: Seq<char>, i: int, k: int)
    requires
        is_first_member(s, name, i),
        is_first_member(s, name, k),
    ensures
        i == k,
{
    if i < k {
        assert(s[i].0 != name);
    } else if k < i {
        assert(s[k].0 != name);
    }
}

proof fn lemma_put_existing(s: Seq<(Seq<char>, Seq<char>)>, m: (Seq<char>, Seq<char>), k: int)
    requires
        is_first_member(s, m.0, k),
    ensures
        put_member(s, m) == s.update(k, m),
{
    let c = choose|c: int| is_first_member(s, m.0, c);
    lemma_first_member_unique(s, m.0, k, c);
}

/// Sets the member `name` of `m` to `value`, as `put_member` says.
pub fn put(m: &mut Vec<(String, String)>, name: String, value: String)
    ensures
        members_view(final(m)@) == put_member(members_view(old(m)@), (name@, value@)),
{
    let ghost s = members_view(m@);
    let mut k: usize = 0;
    while k < m.len()
        invariant
            k <= m@.len(),
            s == members_view(m@),
            m@ == old(m)@,
            forall|j: int| 0 <= j < k ==> s[j].0 != name@,
        decreases m@.len() - k,
    {
        if m[k].0 == name {
            let ghost nv = name@;
            let ghost vv = value@;
            proof {
                assert(s[k as int].0 == nv);
                assert(is_first_member(s, nv, k as int));
                lemma_put_existing(s, (nv, vv), k as int);
            }
            m.set(k, (name, value));
            proof {
                assert(members_view(m@) =~= s.update(k as int, (nv, vv)));
            }
            return ;
        }
        k = k + 1;
    }
    m.push((name, value));
    proof {
        assert(members_view(m@) =~= put_member(s, (name@, value@)));
    }
}

/// Merges the members `more` into `m`, as `merge_members` says.
pub fn merge_into(m: &mut Vec<(String, String)>, more: &Vec<(String, String)>)
    ensures
        members_view(final(m)@) == merge_members(members_view(old(m)@), members_view(more@)),
{
    let ghost start = members_view(m@);
    let ghost mv = members_view(more@);
    let mut k: usize = 0;
    while k < more.len()
        invariant
            k <= more@.len(),
            mv == members_view(more@),
            members_view(m@) == merge_members(start, mv.subrange(0, k as int)),
        decreases more@.len() - k,
    {
        proof {
            let next = mv.subrange(0, k + 1);
            assert(next.subrange(0, next.len() - 1) =~= mv.subrange(0, k as int));
        }
        put(m, more[k].0.clone(), more[k].1.clone());
        k = k + 1;
    }
    assert(mv.subrange(0, mv.len() as int) =~= mv);
}

fn push_diagnostic(diags: &mut Vec<HeaveError>, d: HeaveError)
    ensures
        diagnostics_view(final(diags)@) == diagnostics_view(old(diags)@).push(d@),
{
    diags.push(d);
    proof {
        assert(diagnostics_view(final(diags)@) =~= diagnostics_view(old(diags)@).push(d@));
    }
}

fn value_of(text: &str) -> (r: Option<Fragment>)
    ensures
        option_view(r) == Some(FragmentView::Value(text@)),
{
    Some(Fragment::Value(String::from_str(text)))
}

/// The fragment of `schema` at `path`, with the named schemas of `stack`
/// open; its diagnostics are appended to `diags`.
pub fn schema_body_into(
    doc: &Document,
    ctx: &DiagnosticContext,
    schema: &Schema,
    path: &String,
    stack: &mut Vec<usize>,
    diags: &mut Vec<HeaveError>,
) -> (r: Option<Fragment>)
    ensures
        final(stack)@ == old(stack)@,
        option_view(r) == schema_body(*doc, ctx@, *schema, path@, old(stack)@).0,
        diagnostics_view(final(diags)@) == diagnostics_view(old(diags)@) + schema_body(*doc, ctx@, *schema, path@, old(stack)@).1,
    decreases open_budget(*doc, old(stack)@), *schema, 0int,
{
    let ghost diags0 = diagnostics_view(diags@);
    if schema.read_only {
        assert(diags0 + Seq::<Diagnostic>::empty() =~= diags0);
        return None;
    }
    proof {
        reveal_strlit("false");
        reveal_strlit("\"\"");
        reveal_strlit("0");
        reveal_strlit("[]");
        reveal_strlit("[");
        reveal_strlit("]");
        reveal_strlit(",\n");
    }
    match &schema.kind {
        SchemaKind::Boolean => {
            assert(diags0 + Seq::<Diagnostic>::empty() =~= diags0);
            value_of("false")
        },
        SchemaKind::String => {
            assert(diags0 + Seq::<Diagnostic>::empty() =~= diags0);
            assert("\"\""@ =~= seq!['"', '"']);
            value_of("\"\"")
        },
        SchemaKind::Number => {
            assert(diags0 + Seq::<Diagnostic>::empty() =~= diags0);
            assert("0"@ =~= seq!['0']);
            value_of("0")
        },
        SchemaKind::Integer => {
            assert(diags0 + Seq::<Diagnostic>::empty() =~= diags0);
            assert("0"@ =~= seq!['0']);
            value_of("0")
        },
        SchemaKind::Array(items) => match items {
            None => {
                assert(diags0 + Seq::<Diagnostic>::empty() =~= diags0);
                None
            },
            Some(b) => {
                assert("[]"@ =~= seq!['[', ']']);
                let inner = cat(path.as_str(), "[]");
                let element = ref_body_into(doc, ctx, b, &inner, stack, diags);
                match element {
                    None => None,
                    Some(f) => {
                        assert("["@ =~= seq!['[']);
                        assert("]"@ =~= seq![']']);
                        let text = cat("[", render_fragment(&f).as_str()).concat("]");
                        Some(Fragment::Value(text))
                    },
                }
            },
        },
        SchemaKind::Object(ob) => {
            let ghost props = ob.properties@;
            let mut members: Vec<(String, String)> = Vec::new();
            let mut k: usize = 0;
            while k < ob.properties.len()
                invariant
                    k <= props.len(),
                    props == ob.properties@,
                    schema.kind == SchemaKind::Object(*ob),
                    stack@ == old(stack)@,
                    members_view(members@) == property_bodies(*doc, ctx@, props.subrange(0, k as int), path@, stack@).0,
                    diagnostics_view(diags@) == diags0 + property_bodies(*doc, ctx@, props.subrange(0, k as int), path@, stack@).1,
                decreases props.len() - k,
            {
                let entry = &ob.properties[k];
                let child = path_below(path, &entry.0);
                proof {
                    assert(schema.kind is Object);
                    assert(decreases_to!(*schema => schema.kind));
                    assert(decreases_to!(schema.kind => schema.kind->Object_0));
                    assert(decreases_to!(schema.kind->Object_0 => ob.properties));
                    assert(decreases_to!(ob.properties => props));
                    assert(decreases_to!(props => props[k as int]));
                    assert(decreases_to!(props[k as int] => props[k as int].1));
                }
                let ghost before = members@;
                let got = ref_body_into(doc, ctx, &entry.1, &child, stack, diags);
                match got {
                    Some(f) => {
                        let text = render_fragment(&f);
                        members.push((entry.0.clone(), text));
                        proof {
                            assert(members_view(members@) =~= members_view(before).push((entry.0@, render(f@))));
                        }
                    },
                    None => {},
                }
                proof {
                    let next = props.subrange(0, k + 1);
                    assert(next.subrange(0, next.len() - 1) =~= props.subrange(0, k as int));
                    assert(next[next.len() - 1] == props[k as int]);
                    assert(diagnostics_view(diags@) =~= diags0 + property_bodies(*doc, ctx@, next, path@, stack@).1);
                }
                k = k + 1;
            }
            assert(props.subrange(0, props.len() as int) =~= props);
            Some(Fragment::Object(members))
        },
        SchemaKind::AllOf(all) => {
            let ghost ms = all@;
            let mut siblings: Vec<String> = Vec::new();
            let mut members: Vec<(String, String)> = Vec::new();
            let mut k: usize = 0;
            while k < all.len()
                invariant
                    k <= ms.len(),
                    ms == all@,
                    schema.kind == SchemaKind::AllOf(*all),
                    stack@ == old(stack)@,
                    texts(siblings@) == member_bodies(*doc, ctx@, ms.subrange(0, k as int), path@, stack@).0,
                    members_view(members@) == member_bodies(*doc, ctx@, ms.subrange(0, k as int), path@, stack@).1,
                    diagnostics_view(diags@) == diags0 + member_bodies(*doc, ctx@, ms.subrange(0, k as int), path@, stack@).2,
                decreases ms.len() - k,
            {
                proof {
                    assert(schema.kind is AllOf);
                    assert(decreases_to!(*schema => schema.kind));
                    assert(decreases_to!(schema.kind => schema.kind->AllOf_0));
                    assert(decreases_to!(schema.kind->AllOf_0 => ms));
                    assert(decreases_to!(ms => ms[k as int]));
                }
                let ghost before = siblings@;
                let got = ref_body_into(doc, ctx, &all[k], path, stack, diags);
                match got {
                    Some(Fragment::Object(m)) => {
                        merge_into(&mut members, &m);
                    },
                    Some(Fragment::Value(t)) => {
                        siblings.push(t);
                        proof {
                            assert(texts(siblings@) =~= texts(before).push(t@));
                        }
                    },
                    None => {},
                }
                proof {
                    let next = ms.subrange(0, k + 1);
                    assert(next.subrange(0, next.len() - 1) =~= ms.subrange(0, k as int));
                    assert(diagnostics_view(diags@) =~= diags0 + member_bodies(*doc, ctx@, next, path@, stack@).2);
                }
                k = k + 1;
            }
            assert(ms.subrange(0, ms.len() as int) =~= ms);
            if siblings.len() == 0 {
                if members.len() == 0 {
                    None
                } else {
                    Some(Fragment::Object(members))
                }
            } else {
                if members.len() > 0 {
                    let ghost before = siblings@;
                    let object = render_members(&members);
                    siblings.push(object);
                    proof {
                        assert(texts(siblings@) =~= texts(before).push(render_object(members_view(members@))));
                    }
                }
                assert(",\n"@ =~= seq![',', '\n']);
                Some(Fragment::Value(join_texts(&siblings, ",\n")))
            }
        },
        SchemaKind::OneOf => {
            push_unsupported(diags, ctx, UnsupportedKind::OneOf, path);
            None
        },
        SchemaKind::AnyOf => {
            push_unsupported(diags, ctx, UnsupportedKind::AnyOf, path);
            None
        },
        SchemaKind::Not => {
            push_unsupported(diags, ctx, UnsupportedKind::Not, path);
            None
        },
        SchemaKind::Any => {
            push_unsupported(diags, ctx, UnsupportedKind::Any, path);
            None
        },
    }
}

/// The fragment of a possibly-referenced schema; its diagnostics are
/// appended to `diags`.
pub fn ref_body_into(
    doc: &Document,
    ctx: &DiagnosticContext,
    r: &ReferenceOr<Schema>,
    path: &String,
    stack: &mut Vec<usize>,
    diags: &mut Vec<HeaveError>,
) -> (f: Option<Fragment>)
    ensures
        final(stack)@ == old(stack)@,
        option_view(f) == ref_body(*doc, ctx@, *r, path@, old(stack)@).0,
        diagnostics_view(final(diags)@) == diagnostics_view(old(diags)@) + ref_body(*doc, ctx@, *r, path@, old(stack)@).1,
    decreases open_budget(*doc, old(stack)@), *r, 0int,
{
    match r {
        ReferenceOr::Item(s) => schema_body_into(doc, ctx, s, path, stack, diags),
        ReferenceOr::Reference { reference } => {
            let section = match &doc.components {
                Some(c) => Some(&c.schemas),
                None => None,
            };
            match resolve_index(section, SCHEMA_PREFIX, reference) {
                Err(f) => {
                    push_diagnostic(diags, schema_ref_error(ctx, f, reference));
                    None
                },
                Ok(i) => {
                    let components = doc.components.as_ref().unwrap();
                    if on_stack(stack, i) || stack.len() >= components.schemas.len() {
                        push_diagnostic(
                            diags,
                            HeaveError::RequestBodySchemaCycleDetected { context: ctx.duplicate(), jsonpath: path.clone() },
                        );
                        None
                    } else {
                        match &components.schemas[i].1 {
                            ReferenceOr::Item(s) => {
                                stack.push(i);
                                let got = schema_body_into(doc, ctx, s, path, stack, diags);
                                stack.pop();
                                assert(stack@ =~= old(stack)@);
                                got
                            },
                            ReferenceOr::Reference { .. } => None,
                        }
                    }
                },
            }
        },
    }
}

} // verus!

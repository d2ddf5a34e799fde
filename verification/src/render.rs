//! The text of a schema draft.
use vstd::prelude::*;

use crate::draft::{DraftView, FieldsView, NamesView, SchemaDraft};
use crate::keys::name_eq;
use crate::name_map::{NameMap, lookup};
use crate::type_ref::{TypeRef, TypeRefView, render_type_ref, type_ref_text};

verus! {

/// `items` joined with `sep` between neighbours.
pub open spec fn join(items: Seq<Seq<char>>, sep: Seq<char>) -> Seq<char>
    decreases items.len(),
{
    if items.len() == 0 {
        Seq::empty()
    } else if items.len() == 1 {
        items[0]
    } else {
        join(items.drop_last(), sep) + sep + items.last()
    }
}

/// `name: Type` for each argument.
pub open spec fn arg_texts(args: Seq<(Seq<char>, TypeRefView)>) -> Seq<Seq<char>> {
    args.map_values(|a: (Seq<char>, TypeRefView)| a.0 + ": "@ + type_ref_text(a.1))
}

/// The argument list of a field: empty without arguments, else
/// `(a: T, b: U)` in name order.
pub open spec fn args_text(args: Seq<(Seq<char>, TypeRefView)>) -> Seq<char> {
    if args.len() == 0 {
        Seq::empty()
    } else {
        "("@ + join(arg_texts(args), ", "@) + ")"@
    }
}

/// The argument list of a field, as `args_text` states it.
pub fn render_args(args: &NameMap<TypeRef>) -> (r: String)
    ensures
        r@ == args_text(args@),
{
    if args.is_empty() {
        return String::new();
    }
    let ghost texts = arg_texts(args@);
    let mut parts = String::new();
    let mut i: usize = 0;
    while i < args.len()
        invariant
            i <= args@.len(),
            args@.len() > 0,
            texts == arg_texts(args@),
            parts@ == join(texts.take(i as int), ", "@),
        decreases args@.len() - i,
    {
        assert(texts.take(i + 1).drop_last() =~= texts.take(i as int));
        assert(texts.take(i + 1).last() == texts[i as int]);
        let ghost before = parts@;
        if i > 0 {
            parts.append(", ");
        }
        parts.append(args.key_at(i).as_str());
        parts.append(": ");
        let t = render_type_ref(args.value_at(i));
        parts.append(t.as_str());
        if i == 0 {
            assert(parts@ =~= texts[0]);
        } else {
            assert(parts@ =~= before + ", "@ + texts[i as int]);
        }
        i = i + 1;
    }
    assert(texts.take(args@.len() as int) =~= texts);
    let mut out = String::new();
    out.append("(");
    out.append(parts.as_str());
    out.append(")");
    out
}

/// One `# - <source>` line per source document.
pub open spec fn source_lines(sources: Seq<Seq<char>>) -> Seq<char>
    decreases sources.len(),
{
    if sources.len() == 0 {
        Seq::empty()
    } else {
        source_lines(sources.drop_last()) + "# - "@ + sources.last() + "\n"@
    }
}

/// One `scalar <name>` line per scalar.
pub open spec fn scalar_lines(scalars: NamesView) -> Seq<char>
    decreases scalars.len(),
{
    if scalars.len() == 0 {
        Seq::empty()
    } else {
        scalar_lines(scalars.drop_last()) + "scalar "@ + scalars.last().0 + "\n"@
    }
}

/// The members of a union, in name order.
pub open spec fn member_names(members: NamesView) -> Seq<Seq<char>> {
    members.map_values(|m: (Seq<char>, ())| m.0)
}

/// One `union <name> = <a> | <b>` paragraph per union.
pub open spec fn union_blocks(unions: Seq<(Seq<char>, NamesView)>) -> Seq<char>
    decreases unions.len(),
{
    if unions.len() == 0 {
        Seq::empty()
    } else {
        union_blocks(unions.drop_last()) + "union "@ + unions.last().0 + " = "@
            + join(member_names(unions.last().1), " | "@) + "\n\n"@
    }
}

/// One `  <name><args>: <type>` line per field.
pub open spec fn field_lines(fields: FieldsView) -> Seq<char>
    decreases fields.len(),
{
    if fields.len() == 0 {
        Seq::empty()
    } else {
        field_lines(fields.drop_last()) + "  "@ + fields.last().0 + args_text(fields.last().1.args) + ": "@
            + type_ref_text(fields.last().1.ty) + "\n"@
    }
}

/// The `type` paragraph of one object type; an object without fields gets a
/// `_placeholder: JSON` field, and a `Mutation` type without fields is left out.
pub open spec fn object_block(name: Seq<char>, fields: FieldsView) -> Seq<char> {
    if name == "Mutation"@ && fields.len() == 0 {
        Seq::empty()
    } else {
        "type "@ + name + " {\n"@ + (if fields.len() == 0 {
            "  _placeholder: JSON\n"@
        } else {
            field_lines(fields)
        }) + "}\n\n"@
    }
}

/// The `type` paragraphs of all object types, in name order.
pub open spec fn object_blocks(objects: Seq<(Seq<char>, FieldsView)>) -> Seq<char>
    decreases objects.len(),
{
    if objects.len() == 0 {
        Seq::empty()
    } else {
        object_blocks(objects.drop_last()) + object_block(objects.last().0, objects.last().1)
    }
}

/// One stub `input` paragraph per input type.
pub open spec fn input_blocks(inputs: NamesView) -> Seq<char>
    decreases inputs.len(),
{
    if inputs.len() == 0 {
        Seq::empty()
    } else {
        input_blocks(inputs.drop_last()) + "input "@ + inputs.last().0 + " {\n  _stub: JSON\n}\n\n"@
    }
}

/// The draft has a `Mutation` type with at least one field.
pub open spec fn has_mutation(d: DraftView) -> bool {
    match lookup(d.objects, "Mutation"@) {
        Some(fields) => fields.len() > 0,
        None => false,
    }
}

/// The schema line: with a mutation root only where `Mutation` has fields.
pub open spec fn schema_line(d: DraftView) -> Seq<char> {
    if has_mutation(d) {
        "schema { query: Query mutation: Mutation }\n\n"@
    } else {
        "schema { query: Query }\n\n"@
    }
}

/// The whole text of a draft: a header naming the source documents, the
/// scalars, the schema line, then the unions, object types and input types.
pub open spec fn schema_text(d: DraftView, sources: Seq<Seq<char>>) -> Seq<char> {
    "# Generated stub schema (best-effort)\n"@ + "# Source docs:\n"@ + source_lines(sources) + "\n"@
        + scalar_lines(d.scalars) + "\n"@ + schema_line(d) + union_blocks(d.unions)
        + object_blocks(d.objects) + input_blocks(d.inputs)
}

/// The views of a list of names.
pub open spec fn names_of(v: Seq<String>) -> Seq<Seq<char>> {
    v.map_values(|s: String| s@)
}

/// Renders the draft as schema text, as `schema_text` states it; `sources`
/// names the documents it came from.
pub fn render_schema(draft: &SchemaDraft, sources: &Vec<String>) -> (r: String)
    ensures
        r@ == schema_text(draft@, names_of(sources@)),
{
    let mut out = String::new();
    out.append("# Generated stub schema (best-effort)\n");
    out.append("# Source docs:\n");
    let ghost srcs = names_of(sources@);
    let ghost head = out@;
    let mut i: usize = 0;
    while i < sources.len()
        invariant
            i <= sources@.len(),
            srcs == names_of(sources@),
            out@ == head + source_lines(srcs.take(i as int)),
        decreases sources@.len() - i,
    {
        assert(srcs.take(i + 1).drop_last() =~= srcs.take(i as int));
        out.append("# - ");
        out.append(sources[i].as_str());
        out.append("\n");
        i = i + 1;
    }
    assert(srcs.take(sources@.len() as int) =~= srcs);
    out.append("\n");

    let ghost scalars = draft@.scalars;
    let ghost head = out@;
    let mut i: usize = 0;
    while i < draft.scalars.len()
        invariant
            i <= scalars.len(),
            scalars == draft@.scalars,
            out@ == head + scalar_lines(scalars.take(i as int)),
        decreases scalars.len() - i,
    {
        assert(scalars.take(i + 1).drop_last() =~= scalars.take(i as int));
        out.append("scalar ");
        out.append(draft.scalars.key_at(i).as_str());
        out.append("\n");
        i = i + 1;
    }
    assert(scalars.take(scalars.len() as int) =~= scalars);
    out.append("\n");

    let has_mutation = match draft.objects.get("Mutation") {
        Some(m) => !m.is_empty(),
        None => false,
    };
    if has_mutation {
        out.append("schema { query: Query mutation: Mutation }\n\n");
    } else {
        out.append("schema { query: Query }\n\n");
    }

    let ghost unions = draft@.unions;
    let ghost head = out@;
    let mut i: usize = 0;
    while i < draft.unions.len()
        invariant
            i <= unions.len(),
            unions == draft@.unions,
            out@ == head + union_blocks(unions.take(i as int)),
        decreases unions.len() - i,
    {
        assert(unions.take(i + 1).drop_last() =~= unions.take(i as int));
        let members = draft.unions.value_at(i);
        let ghost names = member_names(members@);
        let mut rhs = String::new();
        let mut k: usize = 0;
        while k < members.len()
            invariant
                k <= names.len(),
                names == member_names(members@),
                rhs@ == join(names.take(k as int), " | "@),
            decreases names.len() - k,
        {
            assert(names.take(k + 1).drop_last() =~= names.take(k as int));
            let ghost before = rhs@;
            if k > 0 {
                rhs.append(" | ");
            }
            rhs.append(members.key_at(k).as_str());
            if k == 0 {
                assert(rhs@ =~= names[0]);
            } else {
                assert(rhs@ =~= before + " | "@ + names[k as int]);
            }
            k = k + 1;
        }
        assert(names.take(names.len() as int) =~= names);
        out.append("union ");
        out.append(draft.unions.key_at(i).as_str());
        out.append(" = ");
        out.append(rhs.as_str());
        out.append("\n\n");
        i = i + 1;
    }
    assert(unions.take(unions.len() as int) =~= unions);

    let ghost objects = draft@.objects;
    let ghost head = out@;
    let mut i: usize = 0;
    while i < draft.objects.len()
        invariant
            i <= objects.len(),
            objects == draft@.objects,
            out@ == head + object_blocks(objects.take(i as int)),
        decreases objects.len() - i,
    {
        assert(objects.take(i + 1).drop_last() =~= objects.take(i as int));
        let ghost before = out@;
        let object_name = draft.objects.key_at(i);
        let fields = draft.objects.value_at(i);
        if name_eq(object_name.as_str(), "Mutation") && fields.is_empty() {
            assert(out@ =~= before + object_block(objects[i as int].0, objects[i as int].1));
        } else {
            out.append("type ");
            out.append(object_name.as_str());
            out.append(" {\n");
            if fields.is_empty() {
                out.append("  _placeholder: JSON\n");
            } else {
                let ghost fs = fields@;
                let ghost mid = out@;
                let mut k: usize = 0;
                while k < fields.len()
                    invariant
                        k <= fs.len(),
                        fs == fields@,
                        out@ == mid + field_lines(fs.take(k as int)),
                    decreases fs.len() - k,
                {
                    assert(fs.take(k + 1).drop_last() =~= fs.take(k as int));
                    let field = fields.value_at(k);
                    let args = render_args(&field.args);
                    out.append("  ");
                    out.append(fields.key_at(k).as_str());
                    out.append(args.as_str());
                    out.append(": ");
                    let t = render_type_ref(&field.ty);
                    out.append(t.as_str());
                    out.append("\n");
                    k = k + 1;
                }
                assert(fs.take(fs.len() as int) =~= fs);
            }
            out.append("}\n\n");
            assert(out@ =~= before + object_block(objects[i as int].0, objects[i as int].1));
        }
        i = i + 1;
    }
    assert(objects.take(objects.len() as int) =~= objects);

    let ghost inputs = draft@.inputs;
    let ghost head = out@;
    let mut i: usize = 0;
    while i < draft.inputs.len()
        invariant
            i <= inputs.len(),
            inputs == draft@.inputs,
            out@ == head + input_blocks(inputs.take(i as int)),
        decreases inputs.len() - i,
    {
        assert(inputs.take(i + 1).drop_last() =~= inputs.take(i as int));
        out.append("input ");
        out.append(draft.inputs.key_at(i).as_str());
        out.append(" {\n  _stub: JSON\n}\n\n");
        i = i + 1;
    }
    assert(inputs.take(inputs.len() as int) =~= inputs);
    out
}

} // verus!

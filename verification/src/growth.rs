//! Building a schema never drops an object type or a scalar: whatever was
//! there stays there, so `Query`, `Mutation` and `JSON` are always in the
//! result.
use vstd::prelude::*;

use crate::collect::{VarsView, add_args_spec, infer_output_spec, process_items, process_sel, process_ss,
    process_union_ss, union_items, union_sel, ensure_objects};
use crate::document::{ArgValue, Document, FragTable, OperationDefinition, Selection, SelectionSet,
    VariableDefinition};
use crate::draft::{DraftView, add_field_arg_spec, add_field_spec, ensure_object_spec};
use crate::infer::{arg_type, collect_inputs_spec, leaf_scalar, var_types_of};
use crate::name_map::{keys_of, lookup, lemma_lookup_sorted_insert, sorted_insert};
use crate::schema_gen::{draft_of, fragment_table, initial_draft, operations_of, process_fragments,
    process_operations};
use crate::type_ref::{TypeRefView, named_type};

verus! {

/// Every object type and every scalar of `d1` is still in `d2`.
pub open spec fn keeps(d1: DraftView, d2: DraftView) -> bool {
    &&& forall|n: Seq<char>| lookup(d1.objects, n) is Some ==> #[trigger] lookup(d2.objects, n) is Some
    &&& forall|n: Seq<char>| lookup(d1.scalars, n) is Some ==> #[trigger] lookup(d2.scalars, n) is Some
}

proof fn lemma_keeps_trans(a: DraftView, b: DraftView, c: DraftView)
    requires
        keeps(a, b),
        keeps(b, c),
    ensures
        keeps(a, c),
{
    assert forall|n: Seq<char>| lookup(a.objects, n) is Some implies #[trigger] lookup(c.objects, n) is Some by {
        assert(lookup(b.objects, n) is Some);
    }
    assert forall|n: Seq<char>| lookup(a.scalars, n) is Some implies #[trigger] lookup(c.scalars, n) is Some by {
        assert(lookup(b.scalars, n) is Some);
    }
}

proof fn lemma_insert_keeps<W>(s: Seq<(Seq<char>, W)>, k: Seq<char>, v: W)
    ensures
        forall|n: Seq<char>| lookup(s, n) is Some ==> #[trigger] lookup(sorted_insert(s, k, v), n) is Some,
        lookup(sorted_insert(s, k, v), k) is Some,
{
    assert forall|n: Seq<char>| lookup(s, n) is Some implies #[trigger] lookup(sorted_insert(s, k, v), n) is Some by {
        lemma_lookup_sorted_insert(s, k, v, n);
    }
    lemma_lookup_sorted_insert(s, k, v, k);
}

proof fn lemma_ensure_keeps(d: DraftView, o: Seq<char>)
    ensures
        keeps(d, ensure_object_spec(d, o)),
        lookup(ensure_object_spec(d, o).objects, o) is Some,
{
    lemma_insert_keeps(d.objects, o, Seq::empty());
}

proof fn lemma_add_field_keeps(d: DraftView, o: Seq<char>, f: Seq<char>, t: TypeRefView)
    ensures
        keeps(d, add_field_spec(d, o, f, t)),
{
    let d1 = ensure_object_spec(d, o);
    lemma_ensure_keeps(d, o);
    let r = add_field_spec(d, o, f, t);
    lemma_insert_keeps(d1.objects, o, crate::draft::record_field_type(crate::draft::fields_of(d1, o), f, t));
    lemma_keeps_trans(d, d1, r);
}

proof fn lemma_add_arg_keeps(d: DraftView, o: Seq<char>, f: Seq<char>, a: Seq<char>, t: TypeRefView)
    ensures
        keeps(d, add_field_arg_spec(d, o, f, a, t)),
{
    let d1 = ensure_object_spec(d, o);
    lemma_ensure_keeps(d, o);
    let r = add_field_arg_spec(d, o, f, a, t);
    let fields = crate::draft::fields_of(d1, o);
    let fd = crate::draft::field_or_new(fields, f);
    let new_fd = crate::draft::FieldDefView { name: fd.name, ty: fd.ty, args: crate::draft::record_arg_type(fd.args, a, t) };
    lemma_insert_keeps(d1.objects, o, sorted_insert(fields, f, new_fd));
    lemma_keeps_trans(d, d1, r);
}

proof fn lemma_args_keeps(d: DraftView, cur: Seq<char>, fname: Seq<char>, args: Seq<(String, ArgValue)>, vars: VarsView)
    ensures
        keeps(d, add_args_spec(d, cur, fname, args, vars)),
    decreases args.len(),
{
    if args.len() > 0 {
        lemma_args_keeps(d, cur, fname, args.drop_last(), vars);
        let prev = add_args_spec(d, cur, fname, args.drop_last(), vars);
        if let Some(t) = arg_type(args.last().1, vars) {
            lemma_add_arg_keeps(prev, cur, fname, args.last().0@, t);
            lemma_keeps_trans(d, prev, add_args_spec(d, cur, fname, args, vars));
        }
    }
}

proof fn lemma_ensure_objects_keeps(d: DraftView, names: Seq<Seq<char>>)
    ensures
        keeps(d, ensure_objects(d, names)),
        ensure_objects(d, names).unions == d.unions,
    decreases names.len(),
{
    if names.len() > 0 {
        lemma_ensure_objects_keeps(d, names.drop_last());
        let prev = ensure_objects(d, names.drop_last());
        lemma_ensure_keeps(prev, names.last());
        lemma_keeps_trans(d, prev, ensure_objects(d, names));
    }
}

proof fn lemma_infer_keeps(d: DraftView, parent: Seq<char>, fname: Seq<char>, ss: SelectionSet, ft: FragTable)
    ensures
        keeps(d, infer_output_spec(d, parent, fname, ss, ft).0),
{
    let inline = crate::collect::inline_conditions(ss, ss.items@.len());
    if inline.len() > 0 {
        lemma_ensure_objects_keeps(d, keys_of(inline));
    }
}

proof fn lemma_ss_keeps(fuel: nat, d: DraftView, cur: Seq<char>, ss: SelectionSet, ft: FragTable, vars: VarsView)
    ensures
        keeps(d, process_ss(fuel, d, cur, ss, ft, vars)),
    decreases fuel, ss, 3nat, 0nat,
{
    if lookup(d.unions, cur) is Some {
        lemma_union_ss_keeps(fuel, d, ss, ft, vars);
    } else {
        let d1 = ensure_object_spec(d, cur);
        lemma_ensure_keeps(d, cur);
        lemma_items_keeps(fuel, d1, cur, ss, ss.items@.len(), ft, vars);
        lemma_keeps_trans(d, d1, process_ss(fuel, d, cur, ss, ft, vars));
    }
}

proof fn lemma_items_keeps(fuel: nat, d: DraftView, cur: Seq<char>, ss: SelectionSet, n: nat, ft: FragTable, vars: VarsView)
    ensures
        keeps(d, process_items(fuel, d, cur, ss, n, ft, vars)),
    decreases fuel, ss, 1nat, n,
{
    if n > 0 && n <= ss.items@.len() {
        lemma_items_keeps(fuel, d, cur, ss, (n - 1) as nat, ft, vars);
        let mid = process_items(fuel, d, cur, ss, (n - 1) as nat, ft, vars);
        lemma_sel_keeps(fuel, mid, cur, ss.items@[n - 1], ft, vars);
        lemma_keeps_trans(d, mid, process_items(fuel, d, cur, ss, n, ft, vars));
    }
}

proof fn lemma_sel_keeps(fuel: nat, d: DraftView, cur: Seq<char>, s: Selection, ft: FragTable, vars: VarsView)
    ensures
        keeps(d, process_sel(fuel, d, cur, s, ft, vars)),
    decreases fuel, s, 0nat, 0nat,
{
    let r = process_sel(fuel, d, cur, s, ft, vars);
    match s {
        Selection::Field(f) => {
            if f.name@ != "__typename"@ {
                let d1 = add_args_spec(d, cur, f.name@, f.arguments@, vars);
                lemma_args_keeps(d, cur, f.name@, f.arguments@, vars);
                if f.selection_set.items@.len() == 0 {
                    lemma_add_field_keeps(d1, cur, f.name@, leaf_scalar(f.name@));
                    lemma_keeps_trans(d, d1, r);
                } else {
                    let (d2, inferred) = infer_output_spec(d1, cur, f.name@, f.selection_set, ft);
                    lemma_infer_keeps(d1, cur, f.name@, f.selection_set, ft);
                    let d3 = add_field_spec(d2, cur, f.name@, named_type(inferred));
                    lemma_add_field_keeps(d2, cur, f.name@, named_type(inferred));
                    if lookup(d3.unions, inferred) is Some {
                        lemma_union_ss_keeps(fuel, d3, f.selection_set, ft, vars);
                    } else {
                        lemma_ss_keeps(fuel, d3, inferred, f.selection_set, ft, vars);
                    }
                    lemma_keeps_trans(d, d1, d2);
                    lemma_keeps_trans(d, d2, d3);
                    lemma_keeps_trans(d, d3, r);
                }
            } else {
                assert(r == d);
            }
        },
        Selection::FragmentSpread(name) => {
            if let Some(fr) = lookup(ft, name@) {
                if fuel > 0 {
                    let f1 = (fuel - 1) as nat;
                    lemma_ss_keeps(f1, d, cur, fr.selection_set, ft, vars);
                    let d1 = process_ss(f1, d, cur, fr.selection_set, ft, vars);
                    let d2 = ensure_object_spec(d1, fr.type_condition@);
                    lemma_ensure_keeps(d1, fr.type_condition@);
                    lemma_ss_keeps(f1, d2, fr.type_condition@, fr.selection_set, ft, vars);
                    lemma_keeps_trans(d, d1, d2);
                    lemma_keeps_trans(d, d2, r);
                }
            }
        },
        Selection::InlineFragment(i) => {
            let ty = match i.type_condition {
                Some(tc) => tc@,
                None => cur,
            };
            lemma_ss_keeps(fuel, d, ty, i.selection_set, ft, vars);
        },
    }
}

proof fn lemma_union_ss_keeps(fuel: nat, d: DraftView, ss: SelectionSet, ft: FragTable, vars: VarsView)
    ensures
        keeps(d, process_union_ss(fuel, d, ss, ft, vars)),
    decreases fuel, ss, 2nat, 0nat,
{
    lemma_union_items_keeps(fuel, d, ss, ss.items@.len(), ft, vars);
}

proof fn lemma_union_items_keeps(fuel: nat, d: DraftView, ss: SelectionSet, n: nat, ft: FragTable, vars: VarsView)
    ensures
        keeps(d, union_items(fuel, d, ss, n, ft, vars)),
    decreases fuel, ss, 1nat, n,
{
    if n > 0 && n <= ss.items@.len() {
        lemma_union_items_keeps(fuel, d, ss, (n - 1) as nat, ft, vars);
        let mid = union_items(fuel, d, ss, (n - 1) as nat, ft, vars);
        lemma_union_sel_keeps(fuel, mid, ss.items@[n - 1], ft, vars);
        lemma_keeps_trans(d, mid, union_items(fuel, d, ss, n, ft, vars));
    }
}

proof fn lemma_union_sel_keeps(fuel: nat, d: DraftView, s: Selection, ft: FragTable, vars: VarsView)
    ensures
        keeps(d, union_sel(fuel, d, s, ft, vars)),
    decreases fuel, s, 0nat, 0nat,
{
    let r = union_sel(fuel, d, s, ft, vars);
    match s {
        Selection::InlineFragment(i) => {
            if let Some(tc) = i.type_condition {
                let d1 = ensure_object_spec(d, tc@);
                lemma_ensure_keeps(d, tc@);
                lemma_ss_keeps(fuel, d1, tc@, i.selection_set, ft, vars);
                lemma_keeps_trans(d, d1, r);
            }
        },
        Selection::FragmentSpread(name) => {
            if let Some(fr) = lookup(ft, name@) {
                if fuel > 0 {
                    let d1 = ensure_object_spec(d, fr.type_condition@);
                    lemma_ensure_keeps(d, fr.type_condition@);
                    lemma_ss_keeps((fuel - 1) as nat, d1, fr.type_condition@, fr.selection_set, ft, vars);
                    lemma_keeps_trans(d, d1, r);
                }
            }
        },
        Selection::Field(_) => {},
    }
}

proof fn lemma_collect_inputs_keeps(d: DraftView, vars: Seq<VariableDefinition>)
    ensures
        keeps(d, collect_inputs_spec(d, vars)),
    decreases vars.len(),
{
    if vars.len() > 0 {
        lemma_collect_inputs_keeps(d, vars.drop_last());
        let prev = collect_inputs_spec(d, vars.drop_last());
        lemma_insert_keeps(prev.scalars, "JSON"@, ());
        lemma_keeps_trans(d, prev, collect_inputs_spec(d, vars));
    }
}

proof fn lemma_operations_keeps(fuel: nat, d: DraftView, ops: Seq<OperationDefinition>, ft: FragTable)
    ensures
        keeps(d, process_operations(fuel, d, ops, ft)),
    decreases ops.len(),
{
    if ops.len() > 0 {
        lemma_operations_keeps(fuel, d, ops.drop_last(), ft);
        let prev = process_operations(fuel, d, ops.drop_last(), ft);
        let r = process_operations(fuel, d, ops, ft);
        match ops.last() {
            OperationDefinition::Query(q) => {
                let d1 = collect_inputs_spec(prev, q.variable_definitions@);
                lemma_collect_inputs_keeps(prev, q.variable_definitions@);
                lemma_ss_keeps(fuel, d1, "Query"@, q.selection_set, ft, var_types_of(q.variable_definitions@));
                lemma_keeps_trans(prev, d1, r);
            },
            OperationDefinition::Mutation(m) => {
                let d1 = collect_inputs_spec(prev, m.variable_definitions@);
                lemma_collect_inputs_keeps(prev, m.variable_definitions@);
                lemma_ss_keeps(fuel, d1, "Mutation"@, m.selection_set, ft, var_types_of(m.variable_definitions@));
                lemma_keeps_trans(prev, d1, r);
            },
            OperationDefinition::Subscription(s) => {
                let d1 = collect_inputs_spec(prev, s.variable_definitions@);
                lemma_collect_inputs_keeps(prev, s.variable_definitions@);
                lemma_ss_keeps(fuel, d1, "Query"@, s.selection_set, ft, var_types_of(s.variable_definitions@));
                lemma_keeps_trans(prev, d1, r);
            },
            OperationDefinition::SelectionSet(ss) => {
                lemma_ss_keeps(fuel, prev, "Query"@, ss, ft, Seq::empty());
            },
        }
        lemma_keeps_trans(d, prev, r);
    }
}

proof fn lemma_fragments_keeps(fuel: nat, d: DraftView, frags: FragTable, ft: FragTable)
    ensures
        keeps(d, process_fragments(fuel, d, frags, ft)),
    decreases frags.len(),
{
    if frags.len() > 0 {
        lemma_fragments_keeps(fuel, d, frags.drop_last(), ft);
        let prev = process_fragments(fuel, d, frags.drop_last(), ft);
        let fr = frags.last().1;
        let d1 = ensure_object_spec(prev, fr.type_condition@);
        lemma_ensure_keeps(prev, fr.type_condition@);
        lemma_ss_keeps(fuel, d1, fr.type_condition@, fr.selection_set, ft, Seq::empty());
        let r = process_fragments(fuel, d, frags, ft);
        lemma_keeps_trans(prev, d1, r);
        lemma_keeps_trans(d, prev, r);
    }
}

/// The draft built from any documents has the object types `Query` and
/// `Mutation` and the scalar `JSON`.
pub proof fn law_draft_has_roots(fuel: nat, docs: Seq<Document>)
    ensures
        lookup(draft_of(fuel, docs).objects, "Query"@) is Some,
        lookup(draft_of(fuel, docs).objects, "Mutation"@) is Some,
        lookup(draft_of(fuel, docs).scalars, "JSON"@) is Some,
{
    let ft = fragment_table(docs);
    let d0 = crate::draft::DraftView { scalars: seq![("JSON"@, ())], ..crate::draft::empty_draft() };
    let dq = ensure_object_spec(d0, "Query"@);
    lemma_ensure_keeps(d0, "Query"@);
    lemma_ensure_keeps(dq, "Mutation"@);
    lemma_keeps_trans(d0, dq, initial_draft());
    assert(lookup(d0.scalars, "JSON"@) is Some);
    assert(lookup(initial_draft().objects, "Query"@) is Some);
    let d1 = process_operations(fuel, initial_draft(), operations_of(docs), ft);
    lemma_operations_keeps(fuel, initial_draft(), operations_of(docs), ft);
    lemma_fragments_keeps(fuel, d1, ft, ft);
    lemma_keeps_trans(initial_draft(), d1, draft_of(fuel, docs));
    lemma_keeps_trans(d0, initial_draft(), draft_of(fuel, docs));
}

} // verus!

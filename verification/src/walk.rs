//! What walking selections keeps: the input types and scalars stay as they
//! were, and no object type, field, union or union member is ever dropped.
//! The walk also never records a field named `__typename`.
use vstd::prelude::*;

use crate::collect::{VarsView, add_args_spec, add_names, ensure_objects, infer_output_spec, inline_conditions,
    process_items, process_sel, process_ss, process_union_ss, union_items, union_sel};
use crate::document::{ArgValue, Document, FragTable, OperationDefinition, Selection, SelectionSet};
use crate::draft::{DraftView, FieldDefView, FieldsView, NamesView, add_field_arg_spec, add_field_spec,
    ensure_object_spec, field_or_new, fields_of, record_arg_type, record_field_type};
use crate::infer::{arg_type, collect_inputs_spec, leaf_scalar, var_types_of};
use crate::name_map::{keys_of, lemma_lookup_sorted_insert, lookup, sorted_insert};
use crate::schema_gen::{draft_of, fragment_table, initial_draft, operations_of, process_fragments,
    process_operations};
use crate::type_ref::{TypeRefView, named_type};

verus! {

/// Object type `o` of `d` has a field named `f`.
pub open spec fn has_field(d: DraftView, o: Seq<char>, f: Seq<char>) -> bool {
    match lookup(d.objects, o) {
        Some(fields) => lookup(fields, f) is Some,
        None => false,
    }
}

/// Union `u` of `d` has the member `m`.
pub open spec fn has_member(d: DraftView, u: Seq<char>, m: Seq<char>) -> bool {
    match lookup(d.unions, u) {
        Some(members) => lookup(members, m) is Some,
        None => false,
    }
}

/// `d2` has the input types and scalars of `d1`, unchanged, and every object
/// type, field, union and union member of `d1`.
pub open spec fn walk_keeps(d1: DraftView, d2: DraftView) -> bool {
    &&& d2.inputs == d1.inputs
    &&& d2.scalars == d1.scalars
    &&& forall|o: Seq<char>| lookup(d1.objects, o) is Some ==> #[trigger] lookup(d2.objects, o) is Some
    &&& forall|o: Seq<char>, f: Seq<char>|
        #![trigger has_field(d1, o, f)]
        #![trigger has_field(d2, o, f)]
        has_field(d1, o, f) ==> has_field(d2, o, f)
    &&& forall|u: Seq<char>| lookup(d1.unions, u) is Some ==> #[trigger] lookup(d2.unions, u) is Some
    &&& forall|u: Seq<char>, m: Seq<char>|
        #![trigger has_member(d1, u, m)]
        #![trigger has_member(d2, u, m)]
        has_member(d1, u, m) ==> has_member(d2, u, m)
}

/// No object type of `d` has a field named `__typename`.
pub open spec fn no_typename(d: DraftView) -> bool {
    forall|o: Seq<char>| !#[trigger] has_field(d, o, "__typename"@)
}

/// One step of the walk: `walk_keeps`, and no `__typename` field appears.
spec fn step(d1: DraftView, d2: DraftView) -> bool {
    walk_keeps(d1, d2) && (no_typename(d1) ==> no_typename(d2))
}

proof fn lemma_step_refl(d: DraftView)
    ensures
        step(d, d),
{
}

proof fn lemma_step_trans(a: DraftView, b: DraftView, c: DraftView)
    requires
        step(a, b),
        step(b, c),
    ensures
        step(a, c),
{
    assert forall|o: Seq<char>| lookup(a.objects, o) is Some implies #[trigger] lookup(c.objects, o) is Some by {
        assert(lookup(b.objects, o) is Some);
    }
    assert forall|o: Seq<char>, f: Seq<char>| has_field(a, o, f) implies #[trigger] has_field(c, o, f) by {
        assert(has_field(b, o, f));
    }
    assert forall|u: Seq<char>| lookup(a.unions, u) is Some implies #[trigger] lookup(c.unions, u) is Some by {
        assert(lookup(b.unions, u) is Some);
    }
    assert forall|u: Seq<char>, m: Seq<char>| has_member(a, u, m) implies #[trigger] has_member(c, u, m) by {
        assert(has_member(b, u, m));
    }
    if no_typename(a) {
        assert(no_typename(b));
    }
}

proof fn lemma_ensure_step(d: DraftView, o: Seq<char>)
    ensures
        step(d, ensure_object_spec(d, o)),
        lookup(ensure_object_spec(d, o).objects, o) is Some,
{
    let r = ensure_object_spec(d, o);
    lemma_lookup_sorted_insert(d.objects, o, Seq::<(Seq<char>, FieldDefView)>::empty(), o);
    if lookup(d.objects, o) is None {
        assert forall|p: Seq<char>| lookup(d.objects, p) is Some implies #[trigger] lookup(r.objects, p) is Some by {
            lemma_lookup_sorted_insert(d.objects, o, Seq::<(Seq<char>, FieldDefView)>::empty(), p);
        }
        assert forall|p: Seq<char>, f: Seq<char>| has_field(d, p, f) implies #[trigger] has_field(r, p, f) by {
            lemma_lookup_sorted_insert(d.objects, o, Seq::<(Seq<char>, FieldDefView)>::empty(), p);
        }
        if no_typename(d) {
            assert forall|p: Seq<char>| !#[trigger] has_field(r, p, "__typename"@) by {
                lemma_lookup_sorted_insert(d.objects, o, Seq::<(Seq<char>, FieldDefView)>::empty(), p);
                assert(!has_field(d, p, "__typename"@));
            }
        }
    }
}

/// Replacing the fields of an existing object type `o` with a list that has
/// every name the old one had, and `__typename` only where the old one did,
/// is a step.
proof fn lemma_set_fields_step(d: DraftView, o: Seq<char>, fs: FieldsView)
    requires
        lookup(d.objects, o) is Some,
        forall|g: Seq<char>| lookup(fields_of(d, o), g) is Some ==> #[trigger] lookup(fs, g) is Some,
        lookup(fs, "__typename"@) is Some ==> lookup(fields_of(d, o), "__typename"@) is Some,
    ensures
        step(d, DraftView { objects: sorted_insert(d.objects, o, fs), ..d }),
{
    let r = DraftView { objects: sorted_insert(d.objects, o, fs), ..d };
    assert forall|p: Seq<char>| lookup(d.objects, p) is Some implies #[trigger] lookup(r.objects, p) is Some by {
        lemma_lookup_sorted_insert(d.objects, o, fs, p);
    }
    assert forall|p: Seq<char>, f: Seq<char>| has_field(d, p, f) implies #[trigger] has_field(r, p, f) by {
        lemma_lookup_sorted_insert(d.objects, o, fs, p);
        if p == o {
            assert(lookup(fields_of(d, o), f) is Some);
        }
    }
    if no_typename(d) {
        assert forall|p: Seq<char>| !#[trigger] has_field(r, p, "__typename"@) by {
            lemma_lookup_sorted_insert(d.objects, o, fs, p);
            assert(!has_field(d, p, "__typename"@));
        }
    }
}

/// Storing under a name other than `__typename` keeps every name of a field
/// list and adds no `__typename`.
proof fn lemma_insert_field(fs: FieldsView, f: Seq<char>, x: FieldDefView)
    requires
        f != "__typename"@,
    ensures
        forall|g: Seq<char>| lookup(fs, g) is Some ==> #[trigger] lookup(sorted_insert(fs, f, x), g) is Some,
        lookup(sorted_insert(fs, f, x), "__typename"@) == lookup(fs, "__typename"@),
{
    assert forall|g: Seq<char>| lookup(fs, g) is Some implies #[trigger] lookup(sorted_insert(fs, f, x), g) is Some by {
        lemma_lookup_sorted_insert(fs, f, x, g);
    }
    lemma_lookup_sorted_insert(fs, f, x, "__typename"@);
}

proof fn lemma_add_field_step(d: DraftView, o: Seq<char>, f: Seq<char>, t: TypeRefView)
    requires
        f != "__typename"@,
    ensures
        step(d, add_field_spec(d, o, f, t)),
{
    let d1 = ensure_object_spec(d, o);
    lemma_ensure_step(d, o);
    let fs = fields_of(d1, o);
    let fs2 = record_field_type(fs, f, t);
    match lookup(fs, f) {
        Some(fd) => {
            if fd.ty != t {
                lemma_insert_field(fs, f, FieldDefView { name: fd.name, ty: crate::draft::json_type(), args: fd.args });
            }
        },
        None => {
            lemma_insert_field(fs, f, FieldDefView { name: f, ty: t, args: Seq::empty() });
        },
    }
    lemma_set_fields_step(d1, o, fs2);
    lemma_step_trans(d, d1, add_field_spec(d, o, f, t));
}

proof fn lemma_add_arg_step(d: DraftView, o: Seq<char>, f: Seq<char>, a: Seq<char>, t: TypeRefView)
    requires
        f != "__typename"@,
    ensures
        step(d, add_field_arg_spec(d, o, f, a, t)),
{
    let d1 = ensure_object_spec(d, o);
    lemma_ensure_step(d, o);
    let fs = fields_of(d1, o);
    let fd = field_or_new(fs, f);
    let new_fd = FieldDefView { name: fd.name, ty: fd.ty, args: record_arg_type(fd.args, a, t) };
    lemma_insert_field(fs, f, new_fd);
    lemma_set_fields_step(d1, o, sorted_insert(fs, f, new_fd));
    lemma_step_trans(d, d1, add_field_arg_spec(d, o, f, a, t));
}

proof fn lemma_args_step(d: DraftView, cur: Seq<char>, fname: Seq<char>, args: Seq<(String, ArgValue)>, vars: VarsView)
    requires
        fname != "__typename"@,
    ensures
        step(d, add_args_spec(d, cur, fname, args, vars)),
    decreases args.len(),
{
    if args.len() == 0 {
        lemma_step_refl(d);
    } else {
        lemma_args_step(d, cur, fname, args.drop_last(), vars);
        let prev = add_args_spec(d, cur, fname, args.drop_last(), vars);
        if let Some(t) = arg_type(args.last().1, vars) {
            lemma_add_arg_step(prev, cur, fname, args.last().0@, t);
            lemma_step_trans(d, prev, add_args_spec(d, cur, fname, args, vars));
        }
    }
}

proof fn lemma_ensure_objects_step(d: DraftView, names: Seq<Seq<char>>)
    ensures
        step(d, ensure_objects(d, names)),
        ensure_objects(d, names).unions == d.unions,
    decreases names.len(),
{
    if names.len() == 0 {
        lemma_step_refl(d);
    } else {
        lemma_ensure_objects_step(d, names.drop_last());
        let prev = ensure_objects(d, names.drop_last());
        lemma_ensure_step(prev, names.last());
        lemma_step_trans(d, prev, ensure_objects(d, names));
    }
}

proof fn lemma_add_names_keeps(set: NamesView, names: Seq<Seq<char>>)
    ensures
        forall|m: Seq<char>| lookup(set, m) is Some ==> #[trigger] lookup(add_names(set, names), m) is Some,
    decreases names.len(),
{
    if names.len() > 0 {
        lemma_add_names_keeps(set, names.drop_last());
        let prev = add_names(set, names.drop_last());
        assert forall|m: Seq<char>| lookup(set, m) is Some implies #[trigger] lookup(add_names(set, names), m) is Some by {
            assert(lookup(prev, m) is Some);
            lemma_lookup_sorted_insert(prev, names.last(), (), m);
        }
    }
}

proof fn lemma_infer_step(d: DraftView, parent: Seq<char>, fname: Seq<char>, ss: SelectionSet, ft: FragTable)
    ensures
        step(d, infer_output_spec(d, parent, fname, ss, ft).0),
{
    let inline = inline_conditions(ss, ss.items@.len());
    if inline.len() > 0 {
        let union_name = parent + crate::infer::pascal(fname) + "Union"@;
        let d1 = ensure_objects(d, keys_of(inline));
        lemma_ensure_objects_step(d, keys_of(inline));
        let old_members = match lookup(d1.unions, union_name) {
            Some(m) => m,
            None => Seq::empty(),
        };
        let members = add_names(old_members, keys_of(inline));
        lemma_add_names_keeps(old_members, keys_of(inline));
        let r = DraftView { unions: sorted_insert(d1.unions, union_name, members), ..d1 };
        assert(r == infer_output_spec(d, parent, fname, ss, ft).0);
        assert forall|u: Seq<char>| lookup(d1.unions, u) is Some implies #[trigger] lookup(r.unions, u) is Some by {
            lemma_lookup_sorted_insert(d1.unions, union_name, members, u);
        }
        assert forall|u: Seq<char>, m: Seq<char>| has_member(d1, u, m) implies #[trigger] has_member(r, u, m) by {
            lemma_lookup_sorted_insert(d1.unions, union_name, members, u);
            if u == union_name {
                assert(lookup(old_members, m) is Some);
            }
        }
        assert(r.objects == d1.objects);
        assert forall|p: Seq<char>, f: Seq<char>| has_field(d1, p, f) implies #[trigger] has_field(r, p, f) by {}
        if no_typename(d1) {
            assert forall|p: Seq<char>| !#[trigger] has_field(r, p, "__typename"@) by {
                assert(!has_field(d1, p, "__typename"@));
            }
        }
        assert(step(d1, r));
        lemma_step_trans(d, d1, r);
    } else {
        lemma_step_refl(d);
    }
}

proof fn lemma_ss_step(fuel: nat, d: DraftView, cur: Seq<char>, ss: SelectionSet, ft: FragTable, vars: VarsView)
    ensures
        step(d, process_ss(fuel, d, cur, ss, ft, vars)),
    decreases fuel, ss, 3nat, 0nat,
{
    if lookup(d.unions, cur) is Some {
        lemma_union_ss_step(fuel, d, ss, ft, vars);
    } else {
        let d1 = ensure_object_spec(d, cur);
        lemma_ensure_step(d, cur);
        lemma_items_step(fuel, d1, cur, ss, ss.items@.len(), ft, vars);
        lemma_step_trans(d, d1, process_ss(fuel, d, cur, ss, ft, vars));
    }
}

proof fn lemma_items_step(fuel: nat, d: DraftView, cur: Seq<char>, ss: SelectionSet, n: nat, ft: FragTable, vars: VarsView)
    ensures
        step(d, process_items(fuel, d, cur, ss, n, ft, vars)),
    decreases fuel, ss, 1nat, n,
{
    if n > 0 && n <= ss.items@.len() {
        lemma_items_step(fuel, d, cur, ss, (n - 1) as nat, ft, vars);
        let mid = process_items(fuel, d, cur, ss, (n - 1) as nat, ft, vars);
        lemma_sel_step(fuel, mid, cur, ss.items@[n - 1], ft, vars);
        lemma_step_trans(d, mid, process_items(fuel, d, cur, ss, n, ft, vars));
    } else {
        lemma_step_refl(d);
    }
}

proof fn lemma_sel_step(fuel: nat, d: DraftView, cur: Seq<char>, s: Selection, ft: FragTable, vars: VarsView)
    ensures
        step(d, process_sel(fuel, d, cur, s, ft, vars)),
    decreases fuel, s, 0nat, 0nat,
{
    let r = process_sel(fuel, d, cur, s, ft, vars);
    lemma_step_refl(d);
    match s {
        Selection::Field(f) => {
            if f.name@ != "__typename"@ {
                let d1 = add_args_spec(d, cur, f.name@, f.arguments@, vars);
                lemma_args_step(d, cur, f.name@, f.arguments@, vars);
                if f.selection_set.items@.len() == 0 {
                    lemma_add_field_step(d1, cur, f.name@, leaf_scalar(f.name@));
                    lemma_step_trans(d, d1, r);
                } else {
                    let (d2, inferred) = infer_output_spec(d1, cur, f.name@, f.selection_set, ft);
                    lemma_infer_step(d1, cur, f.name@, f.selection_set, ft);
                    let d3 = add_field_spec(d2, cur, f.name@, named_type(inferred));
                    lemma_add_field_step(d2, cur, f.name@, named_type(inferred));
                    if lookup(d3.unions, inferred) is Some {
                        lemma_union_ss_step(fuel, d3, f.selection_set, ft, vars);
                    } else {
                        lemma_ss_step(fuel, d3, inferred, f.selection_set, ft, vars);
                    }
                    lemma_step_trans(d, d1, d2);
                    lemma_step_trans(d, d2, d3);
                    lemma_step_trans(d, d3, r);
                }
            }
        },
        Selection::FragmentSpread(name) => {
            if let Some(fr) = lookup(ft, name@) {
                if fuel > 0 {
                    let f1 = (fuel - 1) as nat;
                    lemma_ss_step(f1, d, cur, fr.selection_set, ft, vars);
                    let d1 = process_ss(f1, d, cur, fr.selection_set, ft, vars);
                    let d2 = ensure_object_spec(d1, fr.type_condition@);
                    lemma_ensure_step(d1, fr.type_condition@);
                    lemma_ss_step(f1, d2, fr.type_condition@, fr.selection_set, ft, vars);
                    lemma_step_trans(d, d1, d2);
                    lemma_step_trans(d, d2, r);
                }
            }
        },
        Selection::InlineFragment(i) => {
            let ty = match i.type_condition {
                Some(tc) => tc@,
                None => cur,
            };
            lemma_ss_step(fuel, d, ty, i.selection_set, ft, vars);
        },
    }
}

proof fn lemma_union_ss_step(fuel: nat, d: DraftView, ss: SelectionSet, ft: FragTable, vars: VarsView)
    ensures
        step(d, process_union_ss(fuel, d, ss, ft, vars)),
    decreases fuel, ss, 2nat, 0nat,
{
    lemma_union_items_step(fuel, d, ss, ss.items@.len(), ft, vars);
}

proof fn lemma_union_items_step(fuel: nat, d: DraftView, ss: SelectionSet, n: nat, ft: FragTable, vars: VarsView)
    ensures
        step(d, union_items(fuel, d, ss, n, ft, vars)),
    decreases fuel, ss, 1nat, n,
{
    if n > 0 && n <= ss.items@.len() {
        lemma_union_items_step(fuel, d, ss, (n - 1) as nat, ft, vars);
        let mid = union_items(fuel, d, ss, (n - 1) as nat, ft, vars);
        lemma_union_sel_step(fuel, mid, ss.items@[n - 1], ft, vars);
        lemma_step_trans(d, mid, union_items(fuel, d, ss, n, ft, vars));
    } else {
        lemma_step_refl(d);
    }
}

proof fn lemma_union_sel_step(fuel: nat, d: DraftView, s: Selection, ft: FragTable, vars: VarsView)
    ensures
        step(d, union_sel(fuel, d, s, ft, vars)),
    decreases fuel, s, 0nat, 0nat,
{
    let r = union_sel(fuel, d, s, ft, vars);
    lemma_step_refl(d);
    match s {
        Selection::InlineFragment(i) => {
            if let Some(tc) = i.type_condition {
                let d1 = ensure_object_spec(d, tc@);
                lemma_ensure_step(d, tc@);
                lemma_ss_step(fuel, d1, tc@, i.selection_set, ft, vars);
                lemma_step_trans(d, d1, r);
            }
        },
        Selection::FragmentSpread(name) => {
            if let Some(fr) = lookup(ft, name@) {
                if fuel > 0 {
                    let d1 = ensure_object_spec(d, fr.type_condition@);
                    lemma_ensure_step(d, fr.type_condition@);
                    lemma_ss_step((fuel - 1) as nat, d1, fr.type_condition@, fr.selection_set, ft, vars);
                    lemma_step_trans(d, d1, r);
                }
            }
        },
        Selection::Field(_) => {},
    }
}

/// Walking a selection set (as `process_selection_set` does) keeps the input
/// types and scalars unchanged and drops no object type, field, union or
/// union member.
pub proof fn law_walk_keeps(fuel: nat, d: DraftView, cur: Seq<char>, ss: SelectionSet, ft: FragTable, vars: VarsView)
    ensures
        walk_keeps(d, process_ss(fuel, d, cur, ss, ft, vars)),
{
    lemma_ss_step(fuel, d, cur, ss, ft, vars);
}

/// Walking a selection set never records a field named `__typename`: if no
/// object type had one before, none has one after.
pub proof fn law_walk_no_typename(fuel: nat, d: DraftView, cur: Seq<char>, ss: SelectionSet, ft: FragTable, vars: VarsView)
    requires
        no_typename(d),
    ensures
        no_typename(process_ss(fuel, d, cur, ss, ft, vars)),
{
    lemma_ss_step(fuel, d, cur, ss, ft, vars);
}

proof fn lemma_collect_inputs_objects(d: DraftView, vars: Seq<crate::document::VariableDefinition>)
    ensures
        collect_inputs_spec(d, vars).objects == d.objects,
    decreases vars.len(),
{
    if vars.len() > 0 {
        lemma_collect_inputs_objects(d, vars.drop_last());
    }
}

proof fn lemma_operations_no_typename(fuel: nat, d: DraftView, ops: Seq<OperationDefinition>, ft: FragTable)
    requires
        no_typename(d),
    ensures
        no_typename(process_operations(fuel, d, ops, ft)),
    decreases ops.len(),
{
    if ops.len() > 0 {
        lemma_operations_no_typename(fuel, d, ops.drop_last(), ft);
        let prev = process_operations(fuel, d, ops.drop_last(), ft);
        match ops.last() {
            OperationDefinition::Query(q) => {
                let d1 = collect_inputs_spec(prev, q.variable_definitions@);
                lemma_collect_inputs_objects(prev, q.variable_definitions@);
                assert(forall|o: Seq<char>| #[trigger] has_field(d1, o, "__typename"@) == has_field(prev, o, "__typename"@));
                lemma_ss_step(fuel, d1, "Query"@, q.selection_set, ft, var_types_of(q.variable_definitions@));
            },
            OperationDefinition::Mutation(m) => {
                let d1 = collect_inputs_spec(prev, m.variable_definitions@);
                lemma_collect_inputs_objects(prev, m.variable_definitions@);
                assert(forall|o: Seq<char>| #[trigger] has_field(d1, o, "__typename"@) == has_field(prev, o, "__typename"@));
                lemma_ss_step(fuel, d1, "Mutation"@, m.selection_set, ft, var_types_of(m.variable_definitions@));
            },
            OperationDefinition::Subscription(s) => {
                let d1 = collect_inputs_spec(prev, s.variable_definitions@);
                lemma_collect_inputs_objects(prev, s.variable_definitions@);
                assert(forall|o: Seq<char>| #[trigger] has_field(d1, o, "__typename"@) == has_field(prev, o, "__typename"@));
                lemma_ss_step(fuel, d1, "Query"@, s.selection_set, ft, var_types_of(s.variable_definitions@));
            },
            OperationDefinition::SelectionSet(ss) => {
                lemma_ss_step(fuel, prev, "Query"@, ss, ft, Seq::empty());
            },
        }
    }
}

proof fn lemma_fragments_no_typename(fuel: nat, d: DraftView, frags: FragTable, ft: FragTable)
    requires
        no_typename(d),
    ensures
        no_typename(process_fragments(fuel, d, frags, ft)),
    decreases frags.len(),
{
    if frags.len() > 0 {
        lemma_fragments_no_typename(fuel, d, frags.drop_last(), ft);
        let prev = process_fragments(fuel, d, frags.drop_last(), ft);
        let fr = frags.last().1;
        let d1 = ensure_object_spec(prev, fr.type_condition@);
        lemma_ensure_step(prev, fr.type_condition@);
        lemma_ss_step(fuel, d1, fr.type_condition@, fr.selection_set, ft, Seq::empty());
    }
}

/// No object type of the schema built from any documents has a field named
/// `__typename`.
pub proof fn law_draft_no_typename(fuel: nat, docs: Seq<Document>)
    ensures
        no_typename(draft_of(fuel, docs)),
{
    let ft = fragment_table(docs);
    let d0 = DraftView { scalars: seq![("JSON"@, ())], ..crate::draft::empty_draft() };
    assert forall|o: Seq<char>| !#[trigger] has_field(d0, o, "__typename"@) by {}
    let dq = ensure_object_spec(d0, "Query"@);
    lemma_ensure_step(d0, "Query"@);
    lemma_ensure_step(dq, "Mutation"@);
    lemma_operations_no_typename(fuel, initial_draft(), operations_of(docs), ft);
    lemma_fragments_no_typename(fuel, process_operations(fuel, initial_draft(), operations_of(docs), ft), ft, ft);
}

} // verus!

//! The schema does not depend on the bound given to fragment expansion, as
//! long as the bound is never reached.
use vstd::prelude::*;

use crate::collect::{VarsView, add_args_spec, infer_output_spec, process_items, process_sel, process_ss,
    process_union_ss, union_items, union_sel};
use crate::cycles::lemma_ss_fuel_mono;
use crate::collect::lemma_typed_inline_union;
use crate::document::{Document, FragTable, OperationDefinition, Selection, SelectionSet, items_fuel_ok,
    sel_fuel_ok, ss_fuel_ok, union_fuel_ok, union_items_fuel_ok, union_sel_fuel_ok, has_typed_inline,
    lemma_union_fuel_ok};
use crate::draft::{DraftView, add_field_spec, ensure_object_spec};
use crate::infer::{collect_inputs_spec, var_types_of};
use crate::name_map::lookup;
use crate::schema_gen::{draft_of, fragment_table, fragments_fuel_ok, initial_draft, lemma_ss_fuel, operations_of,
    process_fragments, process_operations};
use crate::type_ref::named_type;

verus! {

/// Within `fuel`, walking a selection set gives the same draft with one more unit of fuel.
pub proof fn lemma_ss_step(fuel: nat, d: DraftView, cur: Seq<char>, ss: SelectionSet, ft: FragTable, vars: VarsView)
    requires
        ss_fuel_ok(ss, ft, fuel),
    ensures
        process_ss(fuel, d, cur, ss, ft, vars) == process_ss(fuel + 1, d, cur, ss, ft, vars),
    decreases fuel, ss, 3nat, 0nat,
{
    if lookup(d.unions, cur) is Some {
        lemma_union_fuel_ok(ss, ft, fuel);
        lemma_union_ss_step(fuel, d, ss, ft, vars);
    } else {
        lemma_items_step(fuel, ensure_object_spec(d, cur), cur, ss, ss.items@.len(), ft, vars);
    }
}

proof fn lemma_items_step(fuel: nat, d: DraftView, cur: Seq<char>, ss: SelectionSet, n: nat, ft: FragTable, vars: VarsView)
    requires
        items_fuel_ok(ss, n, ft, fuel),
    ensures
        process_items(fuel, d, cur, ss, n, ft, vars) == process_items(fuel + 1, d, cur, ss, n, ft, vars),
    decreases fuel, ss, 1nat, n,
{
    if n > 0 && n <= ss.items@.len() {
        lemma_items_step(fuel, d, cur, ss, (n - 1) as nat, ft, vars);
        let mid = process_items(fuel, d, cur, ss, (n - 1) as nat, ft, vars);
        lemma_sel_step(fuel, mid, cur, ss.items@[n - 1], ft, vars);
    }
}

proof fn lemma_sel_step(fuel: nat, d: DraftView, cur: Seq<char>, s: Selection, ft: FragTable, vars: VarsView)
    requires
        sel_fuel_ok(s, ft, fuel),
    ensures
        process_sel(fuel, d, cur, s, ft, vars) == process_sel(fuel + 1, d, cur, s, ft, vars),
    decreases fuel, s, 0nat, 0nat,
{
    match s {
        Selection::Field(f) => {
            if f.name@ != "__typename"@ {
                let d1 = add_args_spec(d, cur, f.name@, f.arguments@, vars);
                if f.selection_set.items@.len() != 0 {
                    let (d2, inferred) = infer_output_spec(d1, cur, f.name@, f.selection_set, ft);
                    let d3 = add_field_spec(d2, cur, f.name@, named_type(inferred));
                    if has_typed_inline(f.selection_set, f.selection_set.items@.len()) {
                        lemma_typed_inline_union(d1, cur, f.name@, f.selection_set, ft, named_type(inferred));
                    } else {
                        lemma_union_fuel_ok(f.selection_set, ft, fuel);
                    }
                    if lookup(d3.unions, inferred) is Some {
                        lemma_union_ss_step(fuel, d3, f.selection_set, ft, vars);
                    } else {
                        lemma_ss_step(fuel, d3, inferred, f.selection_set, ft, vars);
                    }
                }
            }
        },
        Selection::FragmentSpread(name) => {
            if let Some(fr) = lookup(ft, name@) {
                let f1 = (fuel - 1) as nat;
                lemma_ss_step(f1, d, cur, fr.selection_set, ft, vars);
                let d1 = process_ss(f1, d, cur, fr.selection_set, ft, vars);
                let d2 = ensure_object_spec(d1, fr.type_condition@);
                lemma_ss_step(f1, d2, fr.type_condition@, fr.selection_set, ft, vars);
            }
        },
        Selection::InlineFragment(i) => {
            let ty = match i.type_condition {
                Some(tc) => tc@,
                None => cur,
            };
            lemma_ss_step(fuel, d, ty, i.selection_set, ft, vars);
        },
    }
}

proof fn lemma_union_ss_step(fuel: nat, d: DraftView, ss: SelectionSet, ft: FragTable, vars: VarsView)
    requires
        union_fuel_ok(ss, ft, fuel),
    ensures
        process_union_ss(fuel, d, ss, ft, vars) == process_union_ss(fuel + 1, d, ss, ft, vars),
    decreases fuel, ss, 2nat, 0nat,
{
    lemma_union_items_step(fuel, d, ss, ss.items@.len(), ft, vars);
}

proof fn lemma_union_items_step(fuel: nat, d: DraftView, ss: SelectionSet, n: nat, ft: FragTable, vars: VarsView)
    requires
        union_items_fuel_ok(ss, n, ft, fuel),
    ensures
        union_items(fuel, d, ss, n, ft, vars) == union_items(fuel + 1, d, ss, n, ft, vars),
    decreases fuel, ss, 1nat, n,
{
    if n > 0 && n <= ss.items@.len() {
        lemma_union_items_step(fuel, d, ss, (n - 1) as nat, ft, vars);
        let mid = union_items(fuel, d, ss, (n - 1) as nat, ft, vars);
        lemma_union_sel_step(fuel, mid, ss.items@[n - 1], ft, vars);
    }
}

proof fn lemma_union_sel_step(fuel: nat, d: DraftView, s: Selection, ft: FragTable, vars: VarsView)
    requires
        union_sel_fuel_ok(s, ft, fuel),
    ensures
        union_sel(fuel, d, s, ft, vars) == union_sel(fuel + 1, d, s, ft, vars),
    decreases fuel, s, 0nat, 0nat,
{
    match s {
        Selection::InlineFragment(i) => {
            if let Some(tc) = i.type_condition {
                lemma_ss_step(fuel, ensure_object_spec(d, tc@), tc@, i.selection_set, ft, vars);
            }
        },
        Selection::FragmentSpread(name) => {
            if let Some(fr) = lookup(ft, name@) {
                lemma_ss_step((fuel - 1) as nat, ensure_object_spec(d, fr.type_condition@), fr.type_condition@,
                    fr.selection_set, ft, vars);
            }
        },
        Selection::Field(_) => {},
    }
}

/// Within `fuel`, any larger fuel walks a selection set to the same draft.
pub proof fn lemma_ss_more(fuel: nat, extra: nat, d: DraftView, cur: Seq<char>, ss: SelectionSet, ft: FragTable, vars: VarsView)
    requires
        ss_fuel_ok(ss, ft, fuel),
    ensures
        process_ss(fuel, d, cur, ss, ft, vars) == process_ss(fuel + extra, d, cur, ss, ft, vars),
    decreases extra,
{
    if extra > 0 {
        lemma_ss_more(fuel, (extra - 1) as nat, d, cur, ss, ft, vars);
        let f = (fuel + extra - 1) as nat;
        lemma_ss_ok_more(fuel, (extra - 1) as nat, ss, ft);
        lemma_ss_step(f, d, cur, ss, ft, vars);
    }
}

proof fn lemma_ss_ok_more(fuel: nat, extra: nat, ss: SelectionSet, ft: FragTable)
    requires
        ss_fuel_ok(ss, ft, fuel),
    ensures
        ss_fuel_ok(ss, ft, fuel + extra),
    decreases extra,
{
    if extra > 0 {
        lemma_ss_ok_more(fuel, (extra - 1) as nat, ss, ft);
        lemma_ss_fuel_mono(ss, ft, (fuel + extra - 1) as nat);
    }
}

/// With every fragment within `f1` and `f1 <= f2`, the operations walk alike
/// with `f1 + 1` and `f2 + 1`.
proof fn lemma_operations_fuel(f1: nat, f2: nat, d: DraftView, ops: Seq<OperationDefinition>, ft: FragTable)
    requires
        fragments_fuel_ok(ft, f1),
        f1 <= f2,
    ensures
        process_operations(f1 + 1, d, ops, ft) == process_operations(f2 + 1, d, ops, ft),
    decreases ops.len(),
{
    if ops.len() > 0 {
        lemma_operations_fuel(f1, f2, d, ops.drop_last(), ft);
        let prev = process_operations(f1 + 1, d, ops.drop_last(), ft);
        let extra = (f2 - f1) as nat;
        match ops.last() {
            OperationDefinition::Query(q) => {
                lemma_ss_fuel(q.selection_set, ft, f1);
                lemma_ss_more(f1 + 1, extra, collect_inputs_spec(prev, q.variable_definitions@), "Query"@,
                    q.selection_set, ft, var_types_of(q.variable_definitions@));
            },
            OperationDefinition::Mutation(m) => {
                lemma_ss_fuel(m.selection_set, ft, f1);
                lemma_ss_more(f1 + 1, extra, collect_inputs_spec(prev, m.variable_definitions@), "Mutation"@,
                    m.selection_set, ft, var_types_of(m.variable_definitions@));
            },
            OperationDefinition::Subscription(s) => {
                lemma_ss_fuel(s.selection_set, ft, f1);
                lemma_ss_more(f1 + 1, extra, collect_inputs_spec(prev, s.variable_definitions@), "Query"@,
                    s.selection_set, ft, var_types_of(s.variable_definitions@));
            },
            OperationDefinition::SelectionSet(ss) => {
                lemma_ss_fuel(ss, ft, f1);
                lemma_ss_more(f1 + 1, extra, prev, "Query"@, ss, ft, Seq::empty());
            },
        }
    }
}

proof fn lemma_fragments_fuel(f1: nat, f2: nat, d: DraftView, frags: FragTable, ft: FragTable)
    requires
        fragments_fuel_ok(ft, f1),
        f1 <= f2,
    ensures
        process_fragments(f1 + 1, d, frags, ft) == process_fragments(f2 + 1, d, frags, ft),
    decreases frags.len(),
{
    if frags.len() > 0 {
        lemma_fragments_fuel(f1, f2, d, frags.drop_last(), ft);
        let prev = process_fragments(f1 + 1, d, frags.drop_last(), ft);
        let fr = frags.last().1;
        lemma_ss_fuel(fr.selection_set, ft, f1);
        lemma_ss_more(f1 + 1, (f2 - f1) as nat, ensure_object_spec(prev, fr.type_condition@), fr.type_condition@,
            fr.selection_set, ft, Seq::empty());
    }
}

/// The draft built from documents is the same for every bound on fragment
/// expansion that the fragments keep.
pub proof fn law_draft_independent_of_fuel(docs: Seq<Document>, f1: nat, f2: nat)
    requires
        fragments_fuel_ok(fragment_table(docs), f1),
        fragments_fuel_ok(fragment_table(docs), f2),
    ensures
        draft_of(f1 + 1, docs) == draft_of(f2 + 1, docs),
{
    let ft = fragment_table(docs);
    if f1 <= f2 {
        lemma_operations_fuel(f1, f2, initial_draft(), operations_of(docs), ft);
        let d = process_operations(f1 + 1, initial_draft(), operations_of(docs), ft);
        lemma_fragments_fuel(f1, f2, d, ft, ft);
    } else {
        lemma_operations_fuel(f2, f1, initial_draft(), operations_of(docs), ft);
        let d = process_operations(f2 + 1, initial_draft(), operations_of(docs), ft);
        lemma_fragments_fuel(f2, f1, d, ft, ft);
    }
}

} // verus!

//! Walking the selections of operations and fragments, recording the object
//! types, fields, arguments and unions that they imply.
use vstd::prelude::*;

use crate::document::{Field, FragTable, FragmentDefinition, Selection, SelectionSet, ArgValue,
    ss_fuel_ok, items_fuel_ok, sel_fuel_ok, union_fuel_ok, union_items_fuel_ok, union_sel_fuel_ok, has_typed_inline,
    lemma_union_fuel_ok};
use crate::draft::{DraftView, NameSet, NamesView, SchemaDraft, add_field_arg_spec, add_field_spec, ensure_object_spec};
use crate::infer::{arg_type, infer_argument_type, infer_leaf_scalar, leaf_scalar, pascal, pascal_case};
use crate::keys::name_eq;
use crate::walk::{law_walk_keeps, law_walk_no_typename, no_typename, walk_keeps};
use crate::name_map::{NameMap, keys_of, lookup, sorted_insert, lemma_update_is_insert};
use crate::type_ref::{TypeRef, TypeRefView, named_type};

verus! {

/// Variable names and their types, as the walk looks them up.
pub type VarsView = Seq<(Seq<char>, TypeRefView)>;

/// The draft after recording, for field `fname` of `cur`, the type that each
/// argument suggests (arguments whose type cannot be told are skipped).
pub open spec fn add_args_spec(d: DraftView, cur: Seq<char>, fname: Seq<char>, args: Seq<(String, ArgValue)>, vars: VarsView) -> DraftView
    decreases args.len(),
{
    if args.len() == 0 {
        d
    } else {
        let prev = add_args_spec(d, cur, fname, args.drop_last(), vars);
        match arg_type(args.last().1, vars) {
            Some(t) => add_field_arg_spec(prev, cur, fname, args.last().0@, t),
            None => prev,
        }
    }
}

/// The type conditions of the inline fragments among the first `n` selections.
pub open spec fn inline_conditions(ss: SelectionSet, n: nat) -> NamesView
    decreases n,
{
    if n == 0 || n > ss.items@.len() {
        Seq::empty()
    } else {
        let prev = inline_conditions(ss, (n - 1) as nat);
        match ss.items@[n - 1] {
            Selection::InlineFragment(i) => match i.type_condition {
                Some(tc) => sorted_insert(prev, tc@, ()),
                None => prev,
            },
            _ => prev,
        }
    }
}

/// The type conditions of the known fragments spread among the first `n` selections.
pub open spec fn spread_conditions(ss: SelectionSet, n: nat, ft: FragTable) -> NamesView
    decreases n,
{
    if n == 0 || n > ss.items@.len() {
        Seq::empty()
    } else {
        let prev = spread_conditions(ss, (n - 1) as nat, ft);
        match ss.items@[n - 1] {
            Selection::FragmentSpread(name) => match lookup(ft, name@) {
                Some(fr) => sorted_insert(prev, fr.type_condition@, ()),
                None => prev,
            },
            _ => prev,
        }
    }
}

/// The draft with each of `names` present as an object type, taken in order.
pub open spec fn ensure_objects(d: DraftView, names: Seq<Seq<char>>) -> DraftView
    decreases names.len(),
{
    if names.len() == 0 {
        d
    } else {
        ensure_object_spec(ensure_objects(d, names.drop_last()), names.last())
    }
}

/// A name set with each of `names` added, taken in order.
pub open spec fn add_names(set: NamesView, names: Seq<Seq<char>>) -> NamesView
    decreases names.len(),
{
    if names.len() == 0 {
        set
    } else {
        sorted_insert(add_names(set, names.drop_last()), names.last(), ())
    }
}

/// The type name given to field `fname` of `parent` whose sub-selections are
/// `ss`, and the draft after it: with inline fragments, the union
/// `<parent><Field>Union` of their type conditions (each made an object
/// type); else the type condition of the one fragment type spread; else
/// `<parent><Field>`.
pub open spec fn infer_output_spec(d: DraftView, parent: Seq<char>, fname: Seq<char>, ss: SelectionSet, ft: FragTable) -> (DraftView, Seq<char>) {
    let inline = inline_conditions(ss, ss.items@.len());
    let spread = spread_conditions(ss, ss.items@.len(), ft);
    if inline.len() > 0 {
        let union_name = parent + pascal(fname) + "Union"@;
        let d1 = ensure_objects(d, keys_of(inline));
        let old_members = match lookup(d1.unions, union_name) {
            Some(m) => m,
            None => Seq::empty(),
        };
        let members = add_names(old_members, keys_of(inline));
        (DraftView { unions: sorted_insert(d1.unions, union_name, members), ..d1 }, union_name)
    } else if spread.len() == 1 {
        (d, spread[0].0)
    } else {
        (d, parent + pascal(fname))
    }
}

/// The draft after walking selection set `ss` as selections on type `cur`:
/// on a union type its type-conditioned parts are walked instead; otherwise
/// `cur` is made an object type and each selection is walked in order.
pub open spec fn process_ss(fuel: nat, d: DraftView, cur: Seq<char>, ss: SelectionSet, ft: FragTable, vars: VarsView) -> DraftView
    decreases fuel, ss, 3nat, 0nat,
{
    if lookup(d.unions, cur) is Some {
        process_union_ss(fuel, d, ss, ft, vars)
    } else {
        process_items(fuel, ensure_object_spec(d, cur), cur, ss, ss.items@.len(), ft, vars)
    }
}

/// The draft after walking the first `n` selections of `ss` on type `cur`.
pub open spec fn process_items(fuel: nat, d: DraftView, cur: Seq<char>, ss: SelectionSet, n: nat, ft: FragTable, vars: VarsView) -> DraftView
    decreases fuel, ss, 1nat, n,
{
    if n == 0 || n > ss.items@.len() {
        d
    } else {
        process_sel(fuel, process_items(fuel, d, cur, ss, (n - 1) as nat, ft, vars), cur, ss.items@[n - 1], ft, vars)
    }
}

/// The draft after walking one selection on type `cur`. A field other than
/// `__typename` records its arguments, then its type (guessed from its name
/// when it has no sub-selections, else inferred) and walks its
/// sub-selections on that type; a spread of a known fragment walks the
/// fragment's selections both on `cur` and on the fragment's own type; an
/// inline fragment walks its selections on its type condition (or `cur`).
/// `fuel` bounds the nesting of spreads.
pub open spec fn process_sel(fuel: nat, d: DraftView, cur: Seq<char>, s: Selection, ft: FragTable, vars: VarsView) -> DraftView
    decreases fuel, s, 0nat, 0nat,
{
    match s {
        Selection::Field(f) => if f.name@ == "__typename"@ {
            d
        } else {
            let d1 = add_args_spec(d, cur, f.name@, f.arguments@, vars);
            if f.selection_set.items@.len() == 0 {
                add_field_spec(d1, cur, f.name@, leaf_scalar(f.name@))
            } else {
                let (d2, inferred) = infer_output_spec(d1, cur, f.name@, f.selection_set, ft);
                let d3 = add_field_spec(d2, cur, f.name@, named_type(inferred));
                if lookup(d3.unions, inferred) is Some {
                    process_union_ss(fuel, d3, f.selection_set, ft, vars)
                } else {
                    process_ss(fuel, d3, inferred, f.selection_set, ft, vars)
                }
            }
        },
        Selection::FragmentSpread(name) => match lookup(ft, name@) {
            Some(fr) => if fuel == 0 {
                d
            } else {
                let d1 = process_ss((fuel - 1) as nat, d, cur, fr.selection_set, ft, vars);
                let d2 = ensure_object_spec(d1, fr.type_condition@);
                process_ss((fuel - 1) as nat, d2, fr.type_condition@, fr.selection_set, ft, vars)
            },
            None => d,
        },
        Selection::InlineFragment(i) => {
            let ty = match i.type_condition {
                Some(tc) => tc@,
                None => cur,
            };
            process_ss(fuel, d, ty, i.selection_set, ft, vars)
        },
    }
}

/// The draft after walking `ss` as the selections of a union: only the
/// type-conditioned parts count, each walked on its type (made an object type).
pub open spec fn process_union_ss(fuel: nat, d: DraftView, ss: SelectionSet, ft: FragTable, vars: VarsView) -> DraftView
    decreases fuel, ss, 2nat, 0nat,
{
    union_items(fuel, d, ss, ss.items@.len(), ft, vars)
}

/// The draft after walking the first `n` selections of `ss` as those of a union.
pub open spec fn union_items(fuel: nat, d: DraftView, ss: SelectionSet, n: nat, ft: FragTable, vars: VarsView) -> DraftView
    decreases fuel, ss, 1nat, n,
{
    if n == 0 || n > ss.items@.len() {
        d
    } else {
        union_sel(fuel, union_items(fuel, d, ss, (n - 1) as nat, ft, vars), ss.items@[n - 1], ft, vars)
    }
}

/// The draft after walking one selection of a union.
pub open spec fn union_sel(fuel: nat, d: DraftView, s: Selection, ft: FragTable, vars: VarsView) -> DraftView
    decreases fuel, s, 0nat, 0nat,
{
    match s {
        Selection::InlineFragment(i) => match i.type_condition {
            Some(tc) => process_ss(fuel, ensure_object_spec(d, tc@), tc@, i.selection_set, ft, vars),
            None => d,
        },
        Selection::FragmentSpread(name) => match lookup(ft, name@) {
            Some(fr) => if fuel == 0 {
                d
            } else {
                process_ss((fuel - 1) as nat, ensure_object_spec(d, fr.type_condition@), fr.type_condition@, fr.selection_set, ft, vars)
            },
            None => d,
        },
        Selection::Field(_) => d,
    }
}

/// The type condition of the known fragment spread at position `i` of `ss`,
/// if the selection there is a spread of a fragment of the table.
pub open spec fn spread_type_at(ss: SelectionSet, i: int, ft: FragTable) -> Option<Seq<char>> {
    if 0 <= i < ss.items@.len() {
        match ss.items@[i] {
            Selection::FragmentSpread(name) => match lookup(ft, name@) {
                Some(fr) => Some(fr.type_condition@),
                None => None,
            },
            _ => None,
        }
    } else {
        None
    }
}

/// Each type condition of a known spread among the first `n` selections is
/// in `spread_conditions`.
proof fn lemma_spread_conditions_has(ss: SelectionSet, n: nat, ft: FragTable, i: int)
    requires
        0 <= i < n <= ss.items@.len(),
        spread_type_at(ss, i, ft) is Some,
    ensures
        lookup(spread_conditions(ss, n, ft), spread_type_at(ss, i, ft)->0) is Some,
    decreases n,
{
    let prev = spread_conditions(ss, (n - 1) as nat, ft);
    let c = spread_type_at(ss, i, ft)->0;
    if i < n - 1 {
        lemma_spread_conditions_has(ss, (n - 1) as nat, ft, i);
    }
    match ss.items@[n - 1] {
        Selection::FragmentSpread(name) => match lookup(ft, name@) {
            Some(fr) => {
                crate::name_map::lemma_lookup_sorted_insert(prev, fr.type_condition@, (), c);
            },
            None => {},
        },
        _ => {},
    }
}

/// Where every known spread among the first `n` selections has type
/// condition `c`, `spread_conditions` holds `c` alone or nothing.
proof fn lemma_spread_conditions_one(ss: SelectionSet, n: nat, ft: FragTable, c: Seq<char>)
    requires
        n <= ss.items@.len(),
        forall|j: int| 0 <= j < n && (#[trigger] spread_type_at(ss, j, ft)) is Some ==> spread_type_at(ss, j, ft) == Some(c),
    ensures
        spread_conditions(ss, n, ft) == Seq::<(Seq<char>, ())>::empty()
            || spread_conditions(ss, n, ft) == seq![(c, ())],
    decreases n,
{
    if n > 0 {
        lemma_spread_conditions_one(ss, (n - 1) as nat, ft, c);
        let prev = spread_conditions(ss, (n - 1) as nat, ft);
        assert(spread_type_at(ss, n - 1, ft) is Some ==> spread_type_at(ss, n - 1, ft) == Some(c));
        match ss.items@[n - 1] {
            Selection::FragmentSpread(name) => match lookup(ft, name@) {
                Some(fr) => {
                    assert(fr.type_condition@ == c);
                    if prev.len() == 0 {
                        assert(sorted_insert(prev, c, ()) =~= seq![(c, ())]);
                    } else {
                        assert(prev[0].0 == c);
                        assert(sorted_insert(prev, c, ()) =~= seq![(c, ())] + prev.drop_first());
                        assert(prev.drop_first().len() == 0);
                    }
                },
                None => {},
            },
            _ => {},
        }
    }
}

/// Without typed inline fragments there is no inline type condition.
proof fn lemma_inline_empty(ss: SelectionSet, n: nat)
    requires
        !has_typed_inline(ss, n),
    ensures
        inline_conditions(ss, n).len() == 0,
    decreases n,
{
    if n > 0 && n <= ss.items@.len() {
        lemma_inline_empty(ss, (n - 1) as nat);
    }
}

/// The type name given to a field with sub-selections:
/// - with a typed inline fragment among them, the union `<parent><Field>Union`;
/// - else, where the known fragments spread there all have one type condition,
///   that type, and the draft is left as it was;
/// - else (no known spread, or spreads of two different types),
///   `<parent><Field>`, and the draft is left as it was.
pub proof fn law_inferred_type_name(d: DraftView, parent: Seq<char>, fname: Seq<char>, ss: SelectionSet, ft: FragTable,
    c: Seq<char>)
    ensures
        has_typed_inline(ss, ss.items@.len())
            ==> infer_output_spec(d, parent, fname, ss, ft).1 == parent + pascal(fname) + "Union"@,
        !has_typed_inline(ss, ss.items@.len())
            && (exists|i: int| #[trigger] spread_type_at(ss, i, ft) == Some(c))
            && (forall|j: int| (#[trigger] spread_type_at(ss, j, ft)) is Some ==> spread_type_at(ss, j, ft) == Some(c))
            ==> infer_output_spec(d, parent, fname, ss, ft) == (d, c),
        !has_typed_inline(ss, ss.items@.len())
            && (forall|j: int| (#[trigger] spread_type_at(ss, j, ft)) is None)
            ==> infer_output_spec(d, parent, fname, ss, ft) == (d, parent + pascal(fname)),
        forall|i: int, j: int|
            !has_typed_inline(ss, ss.items@.len())
            && (#[trigger] spread_type_at(ss, i, ft)) is Some && (#[trigger] spread_type_at(ss, j, ft)) is Some
            && spread_type_at(ss, i, ft) != spread_type_at(ss, j, ft)
            ==> infer_output_spec(d, parent, fname, ss, ft) == (d, parent + pascal(fname)),
{
    let n = ss.items@.len();
    let sc = spread_conditions(ss, n, ft);
    if has_typed_inline(ss, n) {
        lemma_inline_nonempty(ss, n);
    } else {
        lemma_inline_empty(ss, n);
        if (exists|i: int| #[trigger] spread_type_at(ss, i, ft) == Some(c))
            && (forall|j: int| (#[trigger] spread_type_at(ss, j, ft)) is Some ==> spread_type_at(ss, j, ft) == Some(c)) {
            let i = choose|i: int| #[trigger] spread_type_at(ss, i, ft) == Some(c);
            lemma_spread_conditions_one(ss, n, ft, c);
            lemma_spread_conditions_has(ss, n, ft, i);
            assert(sc =~= seq![(c, ())]);
        }
        if forall|j: int| (#[trigger] spread_type_at(ss, j, ft)) is None {
            let a: Seq<char> = seq!['a'];
            let b: Seq<char> = seq!['b'];
            lemma_spread_conditions_one(ss, n, ft, a);
            lemma_spread_conditions_one(ss, n, ft, b);
            assert(a[0] != b[0]);
            if sc.len() != 0 {
                assert(sc[0].0 == a && sc[0].0 == b);
                assert(false);
            }
        }
        assert forall|i: int, j: int|
            (#[trigger] spread_type_at(ss, i, ft)) is Some && (#[trigger] spread_type_at(ss, j, ft)) is Some
            && spread_type_at(ss, i, ft) != spread_type_at(ss, j, ft)
            implies infer_output_spec(d, parent, fname, ss, ft) == (d, parent + pascal(fname)) by {
            lemma_spread_conditions_has(ss, n, ft, i);
            lemma_spread_conditions_has(ss, n, ft, j);
            let a = spread_type_at(ss, i, ft)->0;
            let b = spread_type_at(ss, j, ft)->0;
            if sc.len() == 1 {
                crate::name_map::lemma_lookup_some(sc, a);
                crate::name_map::lemma_lookup_some(sc, b);
                assert(false);
            }
        }
    }
}

/// With a typed inline fragment among the first `n` selections, there is an
/// inline type condition.
proof fn lemma_inline_nonempty(ss: SelectionSet, n: nat)
    requires
        has_typed_inline(ss, n),
    ensures
        inline_conditions(ss, n).len() > 0,
    decreases n,
{
    let prev = inline_conditions(ss, (n - 1) as nat);
    match ss.items@[n - 1] {
        Selection::InlineFragment(i) => match i.type_condition {
            Some(tc) => {
                crate::name_map::lemma_lookup_sorted_insert(prev, tc@, (), tc@);
                assert(sorted_insert(prev, tc@, ()).len() > 0);
            },
            None => lemma_inline_nonempty(ss, (n - 1) as nat),
        },
        _ => lemma_inline_nonempty(ss, (n - 1) as nat),
    }
}

/// A field whose selections hold a typed inline fragment gets a union type,
/// so its selections are walked as the union's.
pub proof fn lemma_typed_inline_union(d: DraftView, cur: Seq<char>, fname: Seq<char>, ss: SelectionSet, ft: FragTable, t: TypeRefView)
    requires
        has_typed_inline(ss, ss.items@.len()),
    ensures
        lookup(add_field_spec(infer_output_spec(d, cur, fname, ss, ft).0, cur, fname, t).unions,
            infer_output_spec(d, cur, fname, ss, ft).1) is Some,
{
    lemma_inline_nonempty(ss, ss.items@.len());
    let inline = inline_conditions(ss, ss.items@.len());
    let union_name = cur + pascal(fname) + "Union"@;
    let d1 = ensure_objects(d, keys_of(inline));
    let old_members = match lookup(d1.unions, union_name) {
        Some(m) => m,
        None => Seq::empty(),
    };
    let members = add_names(old_members, keys_of(inline));
    crate::name_map::lemma_lookup_sorted_insert(d1.unions, union_name, members, union_name);
}

/// Each of the first `n` selections of `ss` is within the fuel.
pub proof fn lemma_items_fuel_ok(ss: SelectionSet, n: nat, ft: FragTable, fuel: nat, i: int)
    requires
        items_fuel_ok(ss, n, ft, fuel),
        0 <= i < n <= ss.items@.len(),
    ensures
        sel_fuel_ok(ss.items@[i], ft, fuel),
    decreases n,
{
    if i < n - 1 {
        lemma_items_fuel_ok(ss, (n - 1) as nat, ft, fuel, i);
    }
}

/// Each of the first `n` selections of `ss` is within the fuel, walked as a union's.
pub proof fn lemma_union_items_fuel_ok_at(ss: SelectionSet, n: nat, ft: FragTable, fuel: nat, i: int)
    requires
        union_items_fuel_ok(ss, n, ft, fuel),
        0 <= i < n <= ss.items@.len(),
    ensures
        union_sel_fuel_ok(ss.items@[i], ft, fuel),
    decreases n,
{
    if i < n - 1 {
        lemma_union_items_fuel_ok_at(ss, (n - 1) as nat, ft, fuel, i);
    }
}

/// Walks selection set `selection_set` as selections on type `current_type`
/// (on a union type, only its type-conditioned parts).
pub(crate) fn process_selection_set(
    draft: &mut SchemaDraft,
    current_type: &str,
    selection_set: &SelectionSet,
    fragments: &NameMap<&FragmentDefinition>,
    var_types: &NameMap<TypeRef>,
    Ghost(fuel): Ghost<nat>,
)
    requires
        ss_fuel_ok(*selection_set, fragments@, fuel),
    ensures
        final(draft)@ == process_ss(fuel, old(draft)@, current_type@, *selection_set, fragments@, var_types@),
        walk_keeps(old(draft)@, final(draft)@),
        no_typename(old(draft)@) ==> no_typename(final(draft)@),
    decreases fuel, *selection_set, 3nat, 0nat,
{
    proof {
        law_walk_keeps(fuel, draft@, current_type@, *selection_set, fragments@, var_types@);
        if no_typename(draft@) {
            law_walk_no_typename(fuel, draft@, current_type@, *selection_set, fragments@, var_types@);
        }
    }
    if draft.unions.contains_key(current_type) {
        proof {
            lemma_union_fuel_ok(*selection_set, fragments@, fuel);
        }
        process_union_selection_set(draft, selection_set, fragments, var_types, Ghost(fuel));
        return;
    }
    draft.ensure_object(current_type);
    let ghost d0 = draft@;
    let mut i: usize = 0;
    while i < selection_set.items.len()
        invariant
            i <= selection_set.items@.len(),
            ss_fuel_ok(*selection_set, fragments@, fuel),
            draft@ == process_items(fuel, d0, current_type@, *selection_set, i as nat, fragments@, var_types@),
        decreases selection_set.items@.len() - i,
    {
        proof {
            lemma_items_fuel_ok(*selection_set, selection_set.items@.len(), fragments@, fuel, i as int);
        }
        process_selection(draft, current_type, &selection_set.items[i], fragments, var_types, Ghost(fuel));
        i = i + 1;
    }
}

/// Walks one selection on type `current_type`.
fn process_selection(
    draft: &mut SchemaDraft,
    current_type: &str,
    selection: &Selection,
    fragments: &NameMap<&FragmentDefinition>,
    var_types: &NameMap<TypeRef>,
    Ghost(fuel): Ghost<nat>,
)
    requires
        sel_fuel_ok(*selection, fragments@, fuel),
    ensures
        final(draft)@ == process_sel(fuel, old(draft)@, current_type@, *selection, fragments@, var_types@),
    decreases fuel, *selection, 0nat, 0nat,
{
    match selection {
        Selection::Field(field) => {
            if name_eq(field.name.as_str(), "__typename") {
                return;
            }
            add_field_args(draft, current_type, field, var_types);
            if field.selection_set.items.len() == 0 {
                let ty = infer_leaf_scalar(field.name.as_str());
                draft.add_field(current_type, field.name.as_str(), ty);
            } else {
                let ghost d1 = draft@;
                let inferred = infer_output_type_for_field(draft, current_type, field.name.as_str(), &field.selection_set, fragments);
                draft.add_field(current_type, field.name.as_str(), TypeRef::named(inferred.as_str()));
                proof {
                    if has_typed_inline(field.selection_set, field.selection_set.items@.len()) {
                        lemma_typed_inline_union(d1, current_type@, field.name@, field.selection_set, fragments@,
                            named_type(inferred@));
                    } else {
                        lemma_union_fuel_ok(field.selection_set, fragments@, fuel);
                    }
                }
                if draft.unions.contains_key(inferred.as_str()) {
                    process_union_selection_set(draft, &field.selection_set, fragments, var_types, Ghost(fuel));
                } else {
                    process_selection_set(draft, inferred.as_str(), &field.selection_set, fragments, var_types, Ghost(fuel));
                }
            }
        },
        Selection::FragmentSpread(name) => {
            if let Some(frag) = fragments.get(name.as_str()) {
                process_selection_set(draft, current_type, &frag.selection_set, fragments, var_types, Ghost((fuel - 1) as nat));
                draft.ensure_object(frag.type_condition.as_str());
                process_selection_set(draft, frag.type_condition.as_str(), &frag.selection_set, fragments, var_types, Ghost((fuel - 1) as nat));
            }
        },
        Selection::InlineFragment(inline) => {
            let ty: &str = match &inline.type_condition {
                Some(tc) => tc.as_str(),
                None => current_type,
            };
            process_selection_set(draft, ty, &inline.selection_set, fragments, var_types, Ghost(fuel));
        },
    }
}

/// Walks `selection_set` as the selections of a union: each inline fragment
/// with a type condition, and each known fragment spread, on its type.
fn process_union_selection_set(
    draft: &mut SchemaDraft,
    selection_set: &SelectionSet,
    fragments: &NameMap<&FragmentDefinition>,
    var_types: &NameMap<TypeRef>,
    Ghost(fuel): Ghost<nat>,
)
    requires
        union_fuel_ok(*selection_set, fragments@, fuel),
    ensures
        final(draft)@ == process_union_ss(fuel, old(draft)@, *selection_set, fragments@, var_types@),
    decreases fuel, *selection_set, 2nat, 0nat,
{
    let ghost d0 = draft@;
    let mut i: usize = 0;
    while i < selection_set.items.len()
        invariant
            i <= selection_set.items@.len(),
            union_fuel_ok(*selection_set, fragments@, fuel),
            draft@ == union_items(fuel, d0, *selection_set, i as nat, fragments@, var_types@),
        decreases selection_set.items@.len() - i,
    {
        proof {
            lemma_union_items_fuel_ok_at(*selection_set, selection_set.items@.len(), fragments@, fuel, i as int);
        }
        process_union_selection(draft, &selection_set.items[i], fragments, var_types, Ghost(fuel));
        i = i + 1;
    }
}

/// Walks one selection of a union.
fn process_union_selection(
    draft: &mut SchemaDraft,
    selection: &Selection,
    fragments: &NameMap<&FragmentDefinition>,
    var_types: &NameMap<TypeRef>,
    Ghost(fuel): Ghost<nat>,
)
    requires
        union_sel_fuel_ok(*selection, fragments@, fuel),
    ensures
        final(draft)@ == union_sel(fuel, old(draft)@, *selection, fragments@, var_types@),
    decreases fuel, *selection, 0nat, 0nat,
{
    match selection {
        Selection::InlineFragment(inline) => {
            if let Some(tc) = &inline.type_condition {
                draft.ensure_object(tc.as_str());
                process_selection_set(draft, tc.as_str(), &inline.selection_set, fragments, var_types, Ghost(fuel));
            }
        },
        Selection::FragmentSpread(name) => {
            if let Some(frag) = fragments.get(name.as_str()) {
                draft.ensure_object(frag.type_condition.as_str());
                process_selection_set(draft, frag.type_condition.as_str(), &frag.selection_set, fragments, var_types, Ghost((fuel - 1) as nat));
            }
        },
        Selection::Field(_) => {},
    }
}

/// Records, for field `field_name` of `cur`, the type that each argument
/// suggests.
fn add_field_args(draft: &mut SchemaDraft, cur: &str, field: &Field, var_types: &NameMap<TypeRef>)
    ensures
        final(draft)@ == add_args_spec(old(draft)@, cur@, field.name@, field.arguments@, var_types@),
{
    let mut i: usize = 0;
    while i < field.arguments.len()
        invariant
            i <= field.arguments@.len(),
            draft@ == add_args_spec(old(draft)@, cur@, field.name@, field.arguments@.take(i as int), var_types@),
        decreases field.arguments@.len() - i,
    {
        assert(field.arguments@.take(i + 1).drop_last() =~= field.arguments@.take(i as int));
        let (arg_name, value) = &field.arguments[i];
        if let Some(arg_ty) = infer_argument_type(value, var_types) {
            draft.add_field_arg(cur, field.name.as_str(), arg_name.as_str(), arg_ty);
        }
        i = i + 1;
    }
    assert(field.arguments@.take(field.arguments@.len() as int) =~= field.arguments@);
}

/// `parent` followed by the PascalCase of `field_name`.
fn nested_type_name(parent: &str, field_name: &str) -> (r: String)
    ensures
        r@ == parent@ + pascal(field_name@),
{
    let mut out = parent.to_owned();
    let pc = pascal_case(field_name);
    out.append(pc.as_str());
    out
}

/// Infers the type name of field `field_name` of `parent` from its
/// sub-selections, creating the union of inline type conditions if there are any.
fn infer_output_type_for_field(
    draft: &mut SchemaDraft,
    parent: &str,
    field_name: &str,
    selection_set: &SelectionSet,
    fragments: &NameMap<&FragmentDefinition>,
) -> (r: String)
    ensures
        (final(draft)@, r@) == infer_output_spec(old(draft)@, parent@, field_name@, *selection_set, fragments@),
{
    let mut fragment_type_conditions: NameSet = NameMap::new();
    let mut inline_type_conditions: NameSet = NameMap::new();
    let mut i: usize = 0;
    while i < selection_set.items.len()
        invariant
            i <= selection_set.items@.len(),
            inline_type_conditions@ == inline_conditions(*selection_set, i as nat),
            fragment_type_conditions@ == spread_conditions(*selection_set, i as nat, fragments@),
        decreases selection_set.items@.len() - i,
    {
        match &selection_set.items[i] {
            Selection::FragmentSpread(name) => {
                if let Some(frag) = fragments.get(name.as_str()) {
                    fragment_type_conditions.insert(frag.type_condition.clone(), ());
                }
            },
            Selection::InlineFragment(inline) => {
                if let Some(tc) = &inline.type_condition {
                    inline_type_conditions.insert(tc.clone(), ());
                }
            },
            Selection::Field(_) => {},
        }
        i = i + 1;
    }
    if !inline_type_conditions.is_empty() {
        let mut union_name = nested_type_name(parent, field_name);
        union_name.append("Union");
        let ghost names = keys_of(inline_type_conditions@);
        let ghost d0 = draft@;
        let mut k: usize = 0;
        while k < inline_type_conditions.len()
            invariant
                k <= names.len(),
                names == keys_of(inline_type_conditions@),
                draft@ == ensure_objects(d0, names.take(k as int)),
            decreases names.len() - k,
        {
            assert(names.take(k + 1).drop_last() =~= names.take(k as int));
            draft.ensure_object(inline_type_conditions.key_at(k).as_str());
            k = k + 1;
        }
        assert(names.take(names.len() as int) =~= names);
        let ghost d1 = draft@;
        let pos = draft.unions.find(union_name.as_str());
        let mut members = match pos {
            Some(p) => draft.unions.swap_value(p, NameMap::new()),
            None => NameMap::new(),
        };
        let ghost m0 = members@;
        let mut k: usize = 0;
        while k < inline_type_conditions.len()
            invariant
                k <= names.len(),
                names == keys_of(inline_type_conditions@),
                members@ == add_names(m0, names.take(k as int)),
            decreases names.len() - k,
        {
            assert(names.take(k + 1).drop_last() =~= names.take(k as int));
            members.insert(inline_type_conditions.key_at(k).clone(), ());
            k = k + 1;
        }
        assert(names.take(names.len() as int) =~= names);
        let ghost new_members = members@;
        match pos {
            Some(p) => {
                draft.unions.swap_value(p, members);
                proof {
                    lemma_update_is_insert(d1.unions, p as int, new_members);
                    assert(draft@.unions =~= d1.unions.update(p as int, (union_name@, new_members)));
                }
            },
            None => {
                draft.unions.insert(union_name.clone(), members);
            },
        }
        return union_name;
    }
    if fragment_type_conditions.len() == 1 {
        return fragment_type_conditions.key_at(0).clone();
    }
    nested_type_name(parent, field_name)
}

} // verus!

//! A best-effort schema stub from GraphQL operation documents: every
//! operation and fragment is walked, and the types they imply are rendered.
use vstd::prelude::*;

pub use crate::cycles::fragments_terminate;
pub use crate::draft::{FieldDef, SchemaDraft};
pub use crate::infer::{infer_leaf_scalar, is_builtin_scalar, pascal_case};
pub use crate::parse::{SchemaGenError, parse_document};
pub use crate::render::{render_args, render_schema};
pub use crate::type_ref::{TypeRef, render_type_ref};

use crate::collect::{process_ss, process_selection_set};
use crate::document::{Definition, Document, Operation, FragTable, FragmentDefinition, OperationDefinition, SelectionSet,
    ss_fuel_ok, items_fuel_ok, sel_fuel_ok, Selection};
use crate::expansion::law_draft_independent_of_fuel;
use crate::draft::{DraftView, empty_draft, ensure_object_spec};
use crate::infer::{collect_inputs_from_vars, collect_inputs_spec, var_type_map, var_types_of};
use crate::name_map::{NameMap, lookup, sorted_insert};
use crate::render::{names_of, schema_text};
use crate::parse::{indent_hazard, parsed_document};
use crate::walk::no_typename;
use crate::type_ref::TypeRefView;

verus! {

/// The fragment table after the definitions `defs`: each fragment under its
/// name, a later definition of a name replacing an earlier one.
pub open spec fn defs_fragments(ft: FragTable, defs: Seq<Definition>) -> FragTable
    decreases defs.len(),
{
    if defs.len() == 0 {
        ft
    } else {
        let prev = defs_fragments(ft, defs.drop_last());
        match defs.last() {
            Definition::Fragment(fr) => sorted_insert(prev, fr.name@, fr),
            Definition::Operation(_) => prev,
        }
    }
}

/// The fragments of all documents, by name; a later definition of a name wins.
pub open spec fn fragment_table(docs: Seq<Document>) -> FragTable
    decreases docs.len(),
{
    if docs.len() == 0 {
        Seq::empty()
    } else {
        defs_fragments(fragment_table(docs.drop_last()), docs.last().definitions@)
    }
}

/// The operations among `defs`, in order.
pub open spec fn defs_operations(defs: Seq<Definition>) -> Seq<OperationDefinition>
    decreases defs.len(),
{
    if defs.len() == 0 {
        Seq::empty()
    } else {
        let prev = defs_operations(defs.drop_last());
        match defs.last() {
            Definition::Operation(op) => prev.push(op),
            Definition::Fragment(_) => prev,
        }
    }
}

/// The operations of all documents, in document order.
pub open spec fn operations_of(docs: Seq<Document>) -> Seq<OperationDefinition>
    decreases docs.len(),
{
    if docs.len() == 0 {
        Seq::empty()
    } else {
        operations_of(docs.drop_last()) + defs_operations(docs.last().definitions@)
    }
}

/// Every fragment of the table expands its spreads at most `fuel` deep.
pub open spec fn fragments_fuel_ok(ft: FragTable, fuel: nat) -> bool {
    forall|j: int| 0 <= j < ft.len() ==> #[trigger] ss_fuel_ok(ft[j].1.selection_set, ft, fuel)
}

/// No fragment of the documents spreads itself, directly or through others,
/// where the walk follows the spread (it does not under a field whose
/// selections hold a typed inline fragment, which it walks as a union's):
/// expanding spreads always ends.
pub open spec fn fragments_acyclic(docs: Seq<Document>) -> bool {
    exists|fuel: nat| fragments_fuel_ok(fragment_table(docs), fuel)
}

/// A nesting bound on fragment expansion that every selection set of the
/// documents keeps.
spec fn expansion_fuel(docs: Seq<Document>) -> nat {
    (choose|fuel: nat| fragments_fuel_ok(fragment_table(docs), fuel)) + 1
}

/// The draft after walking one operation: a query (or bare selection set, or
/// subscription) on `Query`, a mutation on `Mutation`, after recording the
/// input types that its variables name.
pub open spec fn process_operation(fuel: nat, d: DraftView, op: OperationDefinition, ft: FragTable) -> DraftView {
    match op {
        OperationDefinition::Query(q) => process_ss(fuel, collect_inputs_spec(d, q.variable_definitions@), "Query"@,
            q.selection_set, ft, var_types_of(q.variable_definitions@)),
        OperationDefinition::Mutation(m) => process_ss(fuel, collect_inputs_spec(d, m.variable_definitions@), "Mutation"@,
            m.selection_set, ft, var_types_of(m.variable_definitions@)),
        OperationDefinition::Subscription(s) => process_ss(fuel, collect_inputs_spec(d, s.variable_definitions@), "Query"@,
            s.selection_set, ft, var_types_of(s.variable_definitions@)),
        OperationDefinition::SelectionSet(ss) => process_ss(fuel, d, "Query"@, ss, ft, Seq::empty()),
    }
}

/// A shorthand operation (a bare selection set) is a query without
/// variables: it is walked on `Query` just as a `query` with no variable
/// definitions and the same selections is.
pub proof fn law_shorthand_is_query(fuel: nat, d: DraftView, ss: SelectionSet, q: Operation, ft: FragTable)
    requires
        q.variable_definitions@.len() == 0,
        q.selection_set == ss,
    ensures
        process_operation(fuel, d, OperationDefinition::SelectionSet(ss), ft)
            == process_operation(fuel, d, OperationDefinition::Query(q), ft),
{
    assert(collect_inputs_spec(d, q.variable_definitions@) == d);
    assert(var_types_of(q.variable_definitions@) == Seq::<(Seq<char>, TypeRefView)>::empty());
}

/// The draft after walking `ops` in order.
pub open spec fn process_operations(fuel: nat, d: DraftView, ops: Seq<OperationDefinition>, ft: FragTable) -> DraftView
    decreases ops.len(),
{
    if ops.len() == 0 {
        d
    } else {
        process_operation(fuel, process_operations(fuel, d, ops.drop_last(), ft), ops.last(), ft)
    }
}

/// The draft after walking each fragment of the table, in name order, on its
/// type condition (made an object type).
pub open spec fn process_fragments(fuel: nat, d: DraftView, frags: FragTable, ft: FragTable) -> DraftView
    decreases frags.len(),
{
    if frags.len() == 0 {
        d
    } else {
        let prev = process_fragments(fuel, d, frags.drop_last(), ft);
        let fr = frags.last().1;
        process_ss(fuel, ensure_object_spec(prev, fr.type_condition@), fr.type_condition@, fr.selection_set, ft, Seq::empty())
    }
}

/// The draft before any walk: the `JSON` scalar, and object types `Query` and `Mutation`.
pub open spec fn initial_draft() -> DraftView {
    let d = DraftView { scalars: seq![("JSON"@, ())], ..empty_draft() };
    ensure_object_spec(ensure_object_spec(d, "Query"@), "Mutation"@)
}

/// The draft built from documents: all operations, then all fragments.
pub open spec fn draft_of(fuel: nat, docs: Seq<Document>) -> DraftView {
    let ft = fragment_table(docs);
    process_fragments(fuel, process_operations(fuel, initial_draft(), operations_of(docs), ft), ft, ft)
}

/// With every fragment within `fuel`, every selection set is within `fuel + 1`.
pub proof fn lemma_ss_fuel(ss: SelectionSet, ft: FragTable, fuel: nat)
    requires
        fragments_fuel_ok(ft, fuel),
    ensures
        ss_fuel_ok(ss, ft, fuel + 1),
    decreases ss, 1nat, 0nat,
{
    lemma_items_fuel(ss, ss.items@.len(), ft, fuel);
}

proof fn lemma_items_fuel(ss: SelectionSet, n: nat, ft: FragTable, fuel: nat)
    requires
        fragments_fuel_ok(ft, fuel),
    ensures
        items_fuel_ok(ss, n, ft, fuel + 1),
    decreases ss, 0nat, n,
{
    if n > 0 && n <= ss.items@.len() {
        lemma_items_fuel(ss, (n - 1) as nat, ft, fuel);
        lemma_sel_fuel(ss.items@[n - 1], ft, fuel);
    }
}

proof fn lemma_sel_fuel(s: Selection, ft: FragTable, fuel: nat)
    requires
        fragments_fuel_ok(ft, fuel),
    ensures
        sel_fuel_ok(s, ft, fuel + 1),
    decreases s, 0nat, 0nat,
{
    match s {
        Selection::Field(f) => {
            lemma_ss_fuel(f.selection_set, ft, fuel);
            crate::document::lemma_union_fuel_ok(f.selection_set, ft, fuel + 1);
        },
        Selection::FragmentSpread(name) => {
            if lookup(ft, name@) is Some {
                crate::name_map::lemma_lookup_some(ft, name@);
                let j = choose|j: int| 0 <= j < ft.len() && ft[j].0 == name@ && lookup(ft, name@) == Some(ft[j].1);
                assert(ss_fuel_ok(ft[j].1.selection_set, ft, fuel));
            }
        },
        Selection::InlineFragment(i) => lemma_ss_fuel(i.selection_set, ft, fuel),
    }
}

/// The fragments of all documents, by name; a later definition of a name wins.
pub(crate) fn collect_fragments(docs: &Vec<Document>) -> (r: NameMap<&FragmentDefinition>)
    ensures
        r@ == fragment_table(docs@),
{
    let mut fragments: NameMap<&FragmentDefinition> = NameMap::new();
    let mut i: usize = 0;
    while i < docs.len()
        invariant
            i <= docs@.len(),
            fragments@ == fragment_table(docs@.take(i as int)),
        decreases docs@.len() - i,
    {
        assert(docs@.take(i + 1).drop_last() =~= docs@.take(i as int));
        let defs = &docs[i].definitions;
        let ghost base = fragments@;
        let mut j: usize = 0;
        while j < defs.len()
            invariant
                j <= defs@.len(),
                fragments@ == defs_fragments(base, defs@.take(j as int)),
            decreases defs@.len() - j,
        {
            assert(defs@.take(j + 1).drop_last() =~= defs@.take(j as int));
            match &defs[j] {
                Definition::Fragment(frag) => {
                    fragments.insert(frag.name.clone(), frag);
                },
                Definition::Operation(_) => {},
            }
            j = j + 1;
        }
        assert(defs@.take(defs@.len() as int) =~= defs@);
        i = i + 1;
    }
    assert(docs@.take(docs@.len() as int) =~= docs@);
    fragments
}

/// Walks one operation: queries, bare selection sets and subscriptions on
/// `Query`, mutations on `Mutation`.
fn process_operation_definition(
    draft: &mut SchemaDraft,
    op: &OperationDefinition,
    fragments: &NameMap<&FragmentDefinition>,
    Ghost(fuel): Ghost<nat>,
)
    requires
        fragments_fuel_ok(fragments@, (fuel - 1) as nat),
        fuel > 0,
    ensures
        final(draft)@ == process_operation(fuel, old(draft)@, *op, fragments@),
{
    match op {
        OperationDefinition::Query(q) => {
            collect_inputs_from_vars(draft, &q.variable_definitions);
            let var_types = var_type_map(&q.variable_definitions);
            proof {
                lemma_ss_fuel(q.selection_set, fragments@, (fuel - 1) as nat);
            }
            process_selection_set(draft, "Query", &q.selection_set, fragments, &var_types, Ghost(fuel));
        },
        OperationDefinition::Mutation(m) => {
            collect_inputs_from_vars(draft, &m.variable_definitions);
            let var_types = var_type_map(&m.variable_definitions);
            proof {
                lemma_ss_fuel(m.selection_set, fragments@, (fuel - 1) as nat);
            }
            process_selection_set(draft, "Mutation", &m.selection_set, fragments, &var_types, Ghost(fuel));
        },
        OperationDefinition::Subscription(s) => {
            collect_inputs_from_vars(draft, &s.variable_definitions);
            let var_types = var_type_map(&s.variable_definitions);
            proof {
                lemma_ss_fuel(s.selection_set, fragments@, (fuel - 1) as nat);
            }
            process_selection_set(draft, "Query", &s.selection_set, fragments, &var_types, Ghost(fuel));
        },
        OperationDefinition::SelectionSet(ss) => {
            let var_types: NameMap<TypeRef> = NameMap::new();
            proof {
                lemma_ss_fuel(*ss, fragments@, (fuel - 1) as nat);
            }
            process_selection_set(draft, "Query", ss, fragments, &var_types, Ghost(fuel));
        },
    }
}

/// Builds the schema draft of a set of documents: starting from the `JSON`
/// scalar and the `Query` and `Mutation` types, every operation is walked in
/// document order, then every fragment in name order. Fragments must not
/// spread themselves, directly or through others, where the walk follows
/// their spreads.
pub fn build_schema_draft(docs: &Vec<Document>) -> (r: SchemaDraft)
    requires
        fragments_acyclic(docs@),
    ensures
        forall|fuel: nat| #[trigger] fragments_fuel_ok(fragment_table(docs@), fuel) ==> r@ == draft_of(fuel + 1, docs@),
        no_typename(r@),
{
    let fragments = collect_fragments(docs);
    let ghost ft = fragments@;
    let ghost fuel = expansion_fuel(docs@);
    proof {
        let f0 = choose|f: nat| fragments_fuel_ok(fragment_table(docs@), f);
        assert(fragments_fuel_ok(ft, f0));
        assert(fuel == f0 + 1);
    }
    let mut draft = SchemaDraft::new();
    draft.scalars.insert("JSON".to_owned(), ());
    assert(draft@.scalars =~= seq![("JSON"@, ())]);
    draft.ensure_object("Query");
    draft.ensure_object("Mutation");
    assert(draft@ == initial_draft());

    let mut i: usize = 0;
    while i < docs.len()
        invariant
            i <= docs@.len(),
            ft == fragments@,
            ft == fragment_table(docs@),
            fuel == expansion_fuel(docs@),
            fuel > 0,
            fragments_fuel_ok(ft, (fuel - 1) as nat),
            draft@ == process_operations(fuel, initial_draft(), operations_of(docs@.take(i as int)), ft),
        decreases docs@.len() - i,
    {
        assert(docs@.take(i + 1).drop_last() =~= docs@.take(i as int));
        let defs = &docs[i].definitions;
        let ghost base = operations_of(docs@.take(i as int));
        let mut j: usize = 0;
        while j < defs.len()
            invariant
                j <= defs@.len(),
                ft == fragments@,
                fuel > 0,
                fragments_fuel_ok(ft, (fuel - 1) as nat),
                draft@ == process_operations(fuel, initial_draft(), base + defs_operations(defs@.take(j as int)), ft),
            decreases defs@.len() - j,
        {
            assert(defs@.take(j + 1).drop_last() =~= defs@.take(j as int));
            match &defs[j] {
                Definition::Operation(op) => {
                    assert((base + defs_operations(defs@.take(j + 1))).drop_last()
                        =~= base + defs_operations(defs@.take(j as int)));
                    process_operation_definition(&mut draft, op, &fragments, Ghost(fuel));
                },
                Definition::Fragment(_) => {
                    assert(defs_operations(defs@.take(j + 1)) == defs_operations(defs@.take(j as int)));
                },
            }
            j = j + 1;
        }
        assert(defs@.take(defs@.len() as int) =~= defs@);
        i = i + 1;
    }
    assert(docs@.take(docs@.len() as int) =~= docs@);

    let ghost after_ops = draft@;
    let mut k: usize = 0;
    while k < fragments.len()
        invariant
            k <= ft.len(),
            ft == fragments@,
            fuel > 0,
            fragments_fuel_ok(ft, (fuel - 1) as nat),
            draft@ == process_fragments(fuel, after_ops, ft.take(k as int), ft),
        decreases ft.len() - k,
    {
        assert(ft.take(k + 1).drop_last() =~= ft.take(k as int));
        let frag = *fragments.value_at(k);
        let var_types: NameMap<TypeRef> = NameMap::new();
        draft.ensure_object(frag.type_condition.as_str());
        proof {
            lemma_ss_fuel(frag.selection_set, ft, (fuel - 1) as nat);
        }
        process_selection_set(&mut draft, frag.type_condition.as_str(), &frag.selection_set, &fragments, &var_types, Ghost(fuel));
        k = k + 1;
    }
    assert(ft.take(ft.len() as int) =~= ft);
    proof {
        crate::walk::law_draft_no_typename(fuel, docs@);
        let f0 = (fuel - 1) as nat;
        assert forall|f: nat| #[trigger] fragments_fuel_ok(fragment_table(docs@), f) implies draft@ == draft_of(f + 1, docs@) by {
            law_draft_independent_of_fuel(docs@, f0, f);
        }
    }
    draft
}

/// The schema stub of a set of documents, whose sources are named in
/// `source_names`: the draft that `build_schema_draft` builds, rendered.
pub fn render_schema_from_documents(source_names: &Vec<String>, docs: &Vec<Document>) -> (r: String)
    requires
        fragments_acyclic(docs@),
    ensures
        forall|fuel: nat| #[trigger] fragments_fuel_ok(fragment_table(docs@), fuel)
            ==> r@ == schema_text(draft_of(fuel + 1, docs@), names_of(source_names@)),
{
    let draft = build_schema_draft(docs);
    render_schema(&draft, source_names)
}

/// The parser accepts the text `t` and the library hands it over.
pub open spec fn source_ok(t: Seq<char>) -> bool {
    !indent_hazard(t) && parsed_document(t) is Some
}

/// The document parsed from a source's text (where the parser accepts it).
pub open spec fn source_document(src: (String, String)) -> Document {
    parsed_document(src.1@)->0
}

/// The documents parsed from the texts of `srcs`, in order.
pub open spec fn source_documents(srcs: Seq<(String, String)>) -> Seq<Document> {
    srcs.map_values(|src: (String, String)| source_document(src))
}

/// The names of `srcs`, in order.
pub open spec fn source_names(srcs: Seq<(String, String)>) -> Seq<Seq<char>> {
    srcs.map_values(|src: (String, String)| src.0@)
}

/// Source `k` is the first whose text is refused.
pub open spec fn first_refused(srcs: Seq<(String, String)>, k: int) -> bool {
    &&& 0 <= k < srcs.len()
    &&& !source_ok(srcs[k].1@)
    &&& forall|j: int| 0 <= j < k ==> source_ok(#[trigger] srcs[j].1@)
}

/// The schema stub of the documents `sources`, each a name and its text:
/// every text is parsed in order, the first that is refused ends the run
/// with its error, and fragments that spread themselves are refused; else
/// the documents' schema is rendered with the names as its sources.
pub fn render_schema_from_texts(sources: &Vec<(String, String)>) -> (r: Result<String, SchemaGenError>)
    ensures
        match r {
            Ok(s) => {
                &&& forall|j: int| 0 <= j < sources@.len() ==> source_ok(#[trigger] sources@[j].1@)
                &&& fragments_acyclic(source_documents(sources@))
                &&& forall|fuel: nat| #[trigger] fragments_fuel_ok(fragment_table(source_documents(sources@)), fuel)
                    ==> s@ == schema_text(draft_of(fuel + 1, source_documents(sources@)), source_names(sources@))
            },
            Err(SchemaGenError::Parse { source, message }) => exists|k: int| {
                &&& #[trigger] first_refused(sources@, k)
                &&& !indent_hazard(sources@[k].1@)
                &&& source@ == sources@[k].0@
            },
            Err(SchemaGenError::BlockIndent { source }) => exists|k: int| {
                &&& #[trigger] first_refused(sources@, k)
                &&& indent_hazard(sources@[k].1@)
                &&& source@ == sources@[k].0@
            },
            Err(SchemaGenError::CyclicFragments) => {
                &&& forall|j: int| 0 <= j < sources@.len() ==> source_ok(#[trigger] sources@[j].1@)
                &&& !fragments_acyclic(source_documents(sources@))
            },
        },
{
    let mut names: Vec<String> = Vec::new();
    let mut docs: Vec<Document> = Vec::new();
    let mut i: usize = 0;
    while i < sources.len()
        invariant
            i <= sources@.len(),
            forall|j: int| 0 <= j < i ==> source_ok(#[trigger] sources@[j].1@),
            docs@ == source_documents(sources@.take(i as int)),
            names@.len() == i,
            names_of(names@) == source_names(sources@.take(i as int)),
        decreases sources@.len() - i,
    {
        let (name, text) = &sources[i];
        match parse_document(name.as_str(), text.as_str()) {
            Ok(d) => {
                docs.push(d);
                let ghost before = names@;
                names.push(name.as_str().to_owned());
                assert(names@ =~= before.push(names@[i as int]));
                assert(source_documents(sources@.take(i + 1)) =~= source_documents(sources@.take(i as int)).push(source_document(sources@[i as int])));
                assert(names_of(names@) =~= names_of(before).push(sources@[i as int].0@));
                assert(names_of(names@) =~= source_names(sources@.take(i + 1)));
            },
            Err(e) => {
                assert(first_refused(sources@, i as int));
                return Err(e);
            },
        }
        i = i + 1;
    }
    assert(sources@.take(sources@.len() as int) =~= sources@);
    if !fragments_terminate(&docs) {
        return Err(SchemaGenError::CyclicFragments);
    }
    Ok(render_schema_from_documents(&names, &docs))
}

} // verus!

//! The library's model of a GraphQL operation document: what the schema
//! builder reads of the parsed text, as plain values.
use vstd::prelude::*;

use crate::name_map::lookup;

verus! {

/// The value given to a field argument, as far as the schema builder reads it:
/// a variable by name, or the kind of literal.
pub enum ArgValue {
    Variable(String),
    Boolean,
    Int,
    Float,
    Str,
    Enum,
    List,
    Object,
    Null,
}

/// The declared type of an operation variable.
pub enum VarType {
    NamedType(String),
    ListType(Box<VarType>),
    NonNullType(Box<VarType>),
}

/// `$name: Type` in an operation header.
pub struct VariableDefinition {
    pub name: String,
    pub var_type: VarType,
}

/// A field selection with its arguments and sub-selections.
pub struct Field {
    pub name: String,
    pub arguments: Vec<(String, ArgValue)>,
    pub selection_set: SelectionSet,
}

/// `... on Type { ... }`, or `... { ... }` without a type condition.
pub struct InlineFragment {
    pub type_condition: Option<String>,
    pub selection_set: SelectionSet,
}

/// One entry of a selection set.
pub enum Selection {
    Field(Field),
    FragmentSpread(String),
    InlineFragment(InlineFragment),
}

/// `{ ... }`: the selections in source order.
pub struct SelectionSet {
    pub items: Vec<Selection>,
}

/// `fragment Name on Type { ... }`.
pub struct FragmentDefinition {
    pub name: String,
    pub type_condition: String,
    pub selection_set: SelectionSet,
}

impl View for FragmentDefinition {
    type V = FragmentDefinition;

    open spec fn view(&self) -> FragmentDefinition {
        *self
    }
}

/// A query, mutation or subscription: its variables and its selections.
pub struct Operation {
    pub variable_definitions: Vec<VariableDefinition>,
    pub selection_set: SelectionSet,
}

/// An operation definition; a bare selection set is a query.
pub enum OperationDefinition {
    SelectionSet(SelectionSet),
    Query(Operation),
    Mutation(Operation),
    Subscription(Operation),
}

/// A top-level definition of a document.
pub enum Definition {
    Operation(OperationDefinition),
    Fragment(FragmentDefinition),
}

/// A parsed operation document.
pub struct Document {
    pub definitions: Vec<Definition>,
}

/// Fragments by name, as the schema builder looks them up.
pub type FragTable = Seq<(Seq<char>, FragmentDefinition)>;

/// Among the first `n` selections of `ss` is an inline fragment with a type
/// condition: the walk then takes the field that `ss` belongs to as a union,
/// whose plain fields it does not walk.
pub open spec fn has_typed_inline(ss: SelectionSet, n: nat) -> bool
    decreases n,
{
    if n == 0 || n > ss.items@.len() {
        false
    } else {
        has_typed_inline(ss, (n - 1) as nat) || match ss.items@[n - 1] {
            Selection::InlineFragment(i) => i.type_condition is Some,
            _ => false,
        }
    }
}

/// Expanding the fragment spreads that the walk reaches in `ss` never nests
/// deeper than `fuel` spreads. The walk goes through fields, inline fragments
/// and spread fragments alike, except under a field whose selections hold a
/// typed inline fragment: it walks those selections as a union's, and skips
/// their plain fields.
pub open spec fn ss_fuel_ok(ss: SelectionSet, ft: FragTable, fuel: nat) -> bool
    decreases fuel, ss, 1nat, 0nat,
{
    items_fuel_ok(ss, ss.items@.len(), ft, fuel)
}

/// The first `n` selections of `ss` satisfy `sel_fuel_ok`.
pub open spec fn items_fuel_ok(ss: SelectionSet, n: nat, ft: FragTable, fuel: nat) -> bool
    decreases fuel, ss, 0nat, n,
{
    if n == 0 || n > ss.items@.len() {
        true
    } else {
        items_fuel_ok(ss, (n - 1) as nat, ft, fuel) && sel_fuel_ok(ss.items@[n - 1], ft, fuel)
    }
}

/// Expanding the fragment spreads that the walk reaches in `s` never nests
/// deeper than `fuel` spreads.
pub open spec fn sel_fuel_ok(s: Selection, ft: FragTable, fuel: nat) -> bool
    decreases fuel, s, 0nat, 0nat,
{
    match s {
        Selection::Field(f) => if has_typed_inline(f.selection_set, f.selection_set.items@.len()) {
            union_fuel_ok(f.selection_set, ft, fuel)
        } else {
            ss_fuel_ok(f.selection_set, ft, fuel)
        },
        Selection::FragmentSpread(name) => match lookup(ft, name@) {
            Some(fr) => fuel > 0 && ss_fuel_ok(fr.selection_set, ft, (fuel - 1) as nat),
            None => true,
        },
        Selection::InlineFragment(i) => ss_fuel_ok(i.selection_set, ft, fuel),
    }
}

/// `ss_fuel_ok` for selections walked as a union's: only typed inline
/// fragments and spreads count.
pub open spec fn union_fuel_ok(ss: SelectionSet, ft: FragTable, fuel: nat) -> bool
    decreases fuel, ss, 1nat, 0nat,
{
    union_items_fuel_ok(ss, ss.items@.len(), ft, fuel)
}

/// The first `n` selections of `ss` satisfy `union_sel_fuel_ok`.
pub open spec fn union_items_fuel_ok(ss: SelectionSet, n: nat, ft: FragTable, fuel: nat) -> bool
    decreases fuel, ss, 0nat, n,
{
    if n == 0 || n > ss.items@.len() {
        true
    } else {
        union_items_fuel_ok(ss, (n - 1) as nat, ft, fuel) && union_sel_fuel_ok(ss.items@[n - 1], ft, fuel)
    }
}

/// `sel_fuel_ok` for a selection walked as a union's.
pub open spec fn union_sel_fuel_ok(s: Selection, ft: FragTable, fuel: nat) -> bool
    decreases fuel, s, 0nat, 0nat,
{
    match s {
        Selection::Field(_) => true,
        Selection::FragmentSpread(name) => match lookup(ft, name@) {
            Some(fr) => fuel > 0 && ss_fuel_ok(fr.selection_set, ft, (fuel - 1) as nat),
            None => true,
        },
        Selection::InlineFragment(i) => match i.type_condition {
            Some(_) => ss_fuel_ok(i.selection_set, ft, fuel),
            None => true,
        },
    }
}

/// Selections within the fuel are within it walked as a union's too.
pub proof fn lemma_union_fuel_ok(ss: SelectionSet, ft: FragTable, fuel: nat)
    requires
        ss_fuel_ok(ss, ft, fuel),
    ensures
        union_fuel_ok(ss, ft, fuel),
{
    lemma_union_items_fuel_ok(ss, ss.items@.len(), ft, fuel);
}

proof fn lemma_union_items_fuel_ok(ss: SelectionSet, n: nat, ft: FragTable, fuel: nat)
    requires
        items_fuel_ok(ss, n, ft, fuel),
    ensures
        union_items_fuel_ok(ss, n, ft, fuel),
    decreases n,
{
    if n > 0 && n <= ss.items@.len() {
        lemma_union_items_fuel_ok(ss, (n - 1) as nat, ft, fuel);
        let s = ss.items@[n - 1];
        assert(sel_fuel_ok(s, ft, fuel));
        match s {
            Selection::InlineFragment(i) => {
                assert(ss_fuel_ok(i.selection_set, ft, fuel));
            },
            _ => {},
        }
        assert(union_sel_fuel_ok(s, ft, fuel));
    }
}

/// Whether `ss` holds an inline fragment with a type condition.
pub fn typed_inline(ss: &SelectionSet) -> (r: bool)
    ensures
        r == has_typed_inline(*ss, ss.items@.len()),
{
    let mut i: usize = 0;
    let mut found = false;
    while i < ss.items.len()
        invariant
            i <= ss.items@.len(),
            found == has_typed_inline(*ss, i as nat),
        decreases ss.items@.len() - i,
    {
        match &ss.items[i] {
            Selection::InlineFragment(inl) => {
                if inl.type_condition.is_some() {
                    found = true;
                }
            },
            _ => {},
        }
        i = i + 1;
    }
    found
}

} // verus!

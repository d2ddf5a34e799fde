//! Deciding whether fragment expansion ends: no fragment may spread itself,
//! directly or through other fragments, where the walk follows the spread.
use vstd::prelude::*;

use crate::document::{Document, FragTable, FragmentDefinition, Selection, SelectionSet, ss_fuel_ok, items_fuel_ok,
    sel_fuel_ok, union_fuel_ok, union_items_fuel_ok, union_sel_fuel_ok, has_typed_inline, typed_inline};
use crate::keys::{lemma_name_lt_irreflexive, name_lt};
use crate::name_map::{NameMap, keys_sorted, lookup, lemma_lookup_index, lemma_lookup_some};
use crate::render::names_of;
use crate::schema_gen::{collect_fragments, fragment_table, fragments_acyclic, fragments_fuel_ok};

verus! {

/// The names of the fragments spread in `ss` where the walk reaches them, in
/// source order.
pub open spec fn ss_spreads(ss: SelectionSet) -> Seq<Seq<char>>
    decreases ss, 1nat, 0nat,
{
    items_spreads(ss, ss.items@.len())
}

/// The names of the fragments spread in the first `n` selections of `ss`.
pub open spec fn items_spreads(ss: SelectionSet, n: nat) -> Seq<Seq<char>>
    decreases ss, 0nat, n,
{
    if n == 0 || n > ss.items@.len() {
        Seq::empty()
    } else {
        items_spreads(ss, (n - 1) as nat) + sel_spreads(ss.items@[n - 1])
    }
}

/// The names of the fragments spread in `s`.
pub open spec fn sel_spreads(s: Selection) -> Seq<Seq<char>>
    decreases s, 0nat, 0nat,
{
    match s {
        Selection::Field(f) => if has_typed_inline(f.selection_set, f.selection_set.items@.len()) {
            union_spreads(f.selection_set)
        } else {
            ss_spreads(f.selection_set)
        },
        Selection::FragmentSpread(name) => seq![name@],
        Selection::InlineFragment(i) => ss_spreads(i.selection_set),
    }
}

/// The names of the fragments spread in `ss` walked as a union's selections.
pub open spec fn union_spreads(ss: SelectionSet) -> Seq<Seq<char>>
    decreases ss, 1nat, 0nat,
{
    union_items_spreads(ss, ss.items@.len())
}

/// The names of the fragments spread in the first `n` selections of `ss`,
/// walked as a union's.
pub open spec fn union_items_spreads(ss: SelectionSet, n: nat) -> Seq<Seq<char>>
    decreases ss, 0nat, n,
{
    if n == 0 || n > ss.items@.len() {
        Seq::empty()
    } else {
        union_items_spreads(ss, (n - 1) as nat) + union_sel_spreads(ss.items@[n - 1])
    }
}

/// The names of the fragments spread in `s`, walked as a union's selection.
pub open spec fn union_sel_spreads(s: Selection) -> Seq<Seq<char>>
    decreases s, 0nat, 0nat,
{
    match s {
        Selection::Field(_) => Seq::empty(),
        Selection::FragmentSpread(name) => seq![name@],
        Selection::InlineFragment(i) => match i.type_condition {
            Some(_) => ss_spreads(i.selection_set),
            None => Seq::empty(),
        },
    }
}

/// A spread of `name` expands within `fuel`.
pub open spec fn spread_ok(name: Seq<char>, ft: FragTable, fuel: nat) -> bool {
    match lookup(ft, name) {
        Some(fr) => fuel > 0 && ss_fuel_ok(fr.selection_set, ft, (fuel - 1) as nat),
        None => true,
    }
}

/// Every spread of `names` expands within `fuel`.
pub open spec fn spreads_ok(names: Seq<Seq<char>>, ft: FragTable, fuel: nat) -> bool {
    forall|k: int| 0 <= k < names.len() ==> #[trigger] spread_ok(names[k], ft, fuel)
}

proof fn lemma_spreads_ok_concat(a: Seq<Seq<char>>, b: Seq<Seq<char>>, ft: FragTable, fuel: nat)
    ensures
        spreads_ok(a + b, ft, fuel) == (spreads_ok(a, ft, fuel) && spreads_ok(b, ft, fuel)),
{
    let c = a + b;
    if spreads_ok(c, ft, fuel) {
        assert forall|k: int| 0 <= k < a.len() implies #[trigger] spread_ok(a[k], ft, fuel) by {
            assert(c[k] == a[k]);
        }
        assert forall|k: int| 0 <= k < b.len() implies #[trigger] spread_ok(b[k], ft, fuel) by {
            assert(c[a.len() + k] == b[k]);
        }
    }
    if spreads_ok(a, ft, fuel) && spreads_ok(b, ft, fuel) {
        assert forall|k: int| 0 <= k < c.len() implies #[trigger] spread_ok(c[k], ft, fuel) by {
            if k < a.len() {
                assert(c[k] == a[k]);
            } else {
                assert(c[k] == b[k - a.len()]);
            }
        }
    }
}

/// A selection set expands within `fuel` exactly when each spread in it does.
pub proof fn lemma_ss_fuel_spreads(ss: SelectionSet, ft: FragTable, fuel: nat)
    ensures
        ss_fuel_ok(ss, ft, fuel) == spreads_ok(ss_spreads(ss), ft, fuel),
    decreases ss, 1nat, 0nat,
{
    lemma_items_fuel_spreads(ss, ss.items@.len(), ft, fuel);
}

proof fn lemma_items_fuel_spreads(ss: SelectionSet, n: nat, ft: FragTable, fuel: nat)
    ensures
        items_fuel_ok(ss, n, ft, fuel) == spreads_ok(items_spreads(ss, n), ft, fuel),
    decreases ss, 0nat, n,
{
    if n == 0 || n > ss.items@.len() {
    } else {
        lemma_items_fuel_spreads(ss, (n - 1) as nat, ft, fuel);
        lemma_sel_fuel_spreads(ss.items@[n - 1], ft, fuel);
        lemma_spreads_ok_concat(items_spreads(ss, (n - 1) as nat), sel_spreads(ss.items@[n - 1]), ft, fuel);
    }
}

proof fn lemma_sel_fuel_spreads(s: Selection, ft: FragTable, fuel: nat)
    ensures
        sel_fuel_ok(s, ft, fuel) == spreads_ok(sel_spreads(s), ft, fuel),
    decreases s, 0nat, 0nat,
{
    match s {
        Selection::Field(f) => {
            lemma_ss_fuel_spreads(f.selection_set, ft, fuel);
            lemma_union_fuel_spreads(f.selection_set, ft, fuel);
        },
        Selection::FragmentSpread(name) => {
            let names = seq![name@];
            assert(names[0] == name@);
            if spreads_ok(names, ft, fuel) {
                assert(spread_ok(names[0], ft, fuel));
            }
        },
        Selection::InlineFragment(i) => lemma_ss_fuel_spreads(i.selection_set, ft, fuel),
    }
}

proof fn lemma_union_fuel_spreads(ss: SelectionSet, ft: FragTable, fuel: nat)
    ensures
        union_fuel_ok(ss, ft, fuel) == spreads_ok(union_spreads(ss), ft, fuel),
    decreases ss, 1nat, 0nat,
{
    lemma_union_items_fuel_spreads(ss, ss.items@.len(), ft, fuel);
}

proof fn lemma_union_items_fuel_spreads(ss: SelectionSet, n: nat, ft: FragTable, fuel: nat)
    ensures
        union_items_fuel_ok(ss, n, ft, fuel) == spreads_ok(union_items_spreads(ss, n), ft, fuel),
    decreases ss, 0nat, n,
{
    if n == 0 || n > ss.items@.len() {
    } else {
        lemma_union_items_fuel_spreads(ss, (n - 1) as nat, ft, fuel);
        lemma_union_sel_fuel_spreads(ss.items@[n - 1], ft, fuel);
        lemma_spreads_ok_concat(union_items_spreads(ss, (n - 1) as nat), union_sel_spreads(ss.items@[n - 1]), ft, fuel);
    }
}

proof fn lemma_union_sel_fuel_spreads(s: Selection, ft: FragTable, fuel: nat)
    ensures
        union_sel_fuel_ok(s, ft, fuel) == spreads_ok(union_sel_spreads(s), ft, fuel),
    decreases s, 0nat, 0nat,
{
    match s {
        Selection::Field(_) => {},
        Selection::FragmentSpread(name) => {
            let names = seq![name@];
            assert(names[0] == name@);
            if spreads_ok(names, ft, fuel) {
                assert(spread_ok(names[0], ft, fuel));
            }
        },
        Selection::InlineFragment(i) => {
            if i.type_condition is Some {
                lemma_ss_fuel_spreads(i.selection_set, ft, fuel);
            }
        },
    }
}

/// Expanding within `fuel` implies expanding within `fuel + 1`.
pub proof fn lemma_ss_fuel_mono(ss: SelectionSet, ft: FragTable, fuel: nat)
    requires
        ss_fuel_ok(ss, ft, fuel),
    ensures
        ss_fuel_ok(ss, ft, fuel + 1),
    decreases fuel, ss, 1nat, 0nat,
{
    lemma_items_fuel_mono(ss, ss.items@.len(), ft, fuel);
}

proof fn lemma_items_fuel_mono(ss: SelectionSet, n: nat, ft: FragTable, fuel: nat)
    requires
        items_fuel_ok(ss, n, ft, fuel),
    ensures
        items_fuel_ok(ss, n, ft, fuel + 1),
    decreases fuel, ss, 0nat, n,
{
    if n > 0 && n <= ss.items@.len() {
        lemma_items_fuel_mono(ss, (n - 1) as nat, ft, fuel);
        lemma_sel_fuel_mono(ss.items@[n - 1], ft, fuel);
    }
}

proof fn lemma_sel_fuel_mono(s: Selection, ft: FragTable, fuel: nat)
    requires
        sel_fuel_ok(s, ft, fuel),
    ensures
        sel_fuel_ok(s, ft, fuel + 1),
    decreases fuel, s, 0nat, 0nat,
{
    match s {
        Selection::Field(f) => {
            if has_typed_inline(f.selection_set, f.selection_set.items@.len()) {
                lemma_union_fuel_mono(f.selection_set, ft, fuel);
            } else {
                lemma_ss_fuel_mono(f.selection_set, ft, fuel);
            }
        },
        Selection::FragmentSpread(name) => {
            if let Some(fr) = lookup(ft, name@) {
                lemma_ss_fuel_mono(fr.selection_set, ft, (fuel - 1) as nat);
            }
        },
        Selection::InlineFragment(i) => lemma_ss_fuel_mono(i.selection_set, ft, fuel),
    }
}

proof fn lemma_union_fuel_mono(ss: SelectionSet, ft: FragTable, fuel: nat)
    requires
        union_fuel_ok(ss, ft, fuel),
    ensures
        union_fuel_ok(ss, ft, fuel + 1),
    decreases fuel, ss, 1nat, 0nat,
{
    lemma_union_items_fuel_mono(ss, ss.items@.len(), ft, fuel);
}

proof fn lemma_union_items_fuel_mono(ss: SelectionSet, n: nat, ft: FragTable, fuel: nat)
    requires
        union_items_fuel_ok(ss, n, ft, fuel),
    ensures
        union_items_fuel_ok(ss, n, ft, fuel + 1),
    decreases fuel, ss, 0nat, n,
{
    if n > 0 && n <= ss.items@.len() {
        lemma_union_items_fuel_mono(ss, (n - 1) as nat, ft, fuel);
        assert(union_sel_fuel_ok(ss.items@[n - 1], ft, fuel));
        match ss.items@[n - 1] {
            Selection::FragmentSpread(name) => {
                if let Some(fr) = lookup(ft, name@) {
                    lemma_ss_fuel_mono(fr.selection_set, ft, (fuel - 1) as nat);
                }
            },
            Selection::InlineFragment(i) => {
                if i.type_condition is Some {
                    lemma_ss_fuel_mono(i.selection_set, ft, fuel);
                }
            },
            Selection::Field(_) => {},
        }
        assert(union_sel_fuel_ok(ss.items@[n - 1], ft, fuel + 1));
    }
}

/// Every fragment of the table named `name` is marked in `ranked`.
pub open spec fn known_ranked(name: Seq<char>, ft: FragTable, ranked: Seq<bool>) -> bool {
    forall|t: int| 0 <= t < ft.len() && #[trigger] ft[t].0 == name ==> ranked[t]
}

/// Every fragment that `names` spreads, where the table knows it, is marked.
pub open spec fn targets_ranked(names: Seq<Seq<char>>, ft: FragTable, ranked: Seq<bool>) -> bool {
    forall|k: int| 0 <= k < names.len() ==> #[trigger] known_ranked(names[k], ft, ranked)
}

/// The number of marked entries.
pub open spec fn count_true(s: Seq<bool>) -> nat
    decreases s.len(),
{
    if s.len() == 0 {
        0
    } else {
        count_true(s.drop_last()) + (if s.last() { 1nat } else { 0nat })
    }
}

proof fn lemma_count_true_bound(s: Seq<bool>)
    ensures
        count_true(s) <= s.len(),
    decreases s.len(),
{
    if s.len() > 0 {
        lemma_count_true_bound(s.drop_last());
    }
}

proof fn lemma_count_true_set(s: Seq<bool>, j: int)
    requires
        0 <= j < s.len(),
        !s[j],
    ensures
        count_true(s.update(j, true)) == count_true(s) + 1,
    decreases s.len(),
{
    let u = s.update(j, true);
    if j < s.len() - 1 {
        assert(u.drop_last() =~= s.drop_last().update(j, true));
        lemma_count_true_set(s.drop_last(), j);
    } else {
        assert(u.drop_last() =~= s.drop_last());
    }
}

/// Where every unmarked fragment spreads an unmarked one, no unmarked fragment
/// expands within any fuel.
proof fn lemma_stuck(ft: FragTable, ranked: Seq<bool>, fuel: nat)
    requires
        keys_sorted(ft),
        ranked.len() == ft.len(),
        forall|j: int| 0 <= j < ft.len() && !ranked[j] ==>
            !targets_ranked(ss_spreads(#[trigger] ft[j].1.selection_set), ft, ranked),
    ensures
        forall|j: int| 0 <= j < ft.len() && !ranked[j] ==> !ss_fuel_ok(#[trigger] ft[j].1.selection_set, ft, fuel),
    decreases fuel,
{
    if fuel > 0 {
        lemma_stuck(ft, ranked, (fuel - 1) as nat);
    }
    assert forall|j: int| 0 <= j < ft.len() && !ranked[j] implies !ss_fuel_ok(#[trigger] ft[j].1.selection_set, ft, fuel) by {
        let names = ss_spreads(ft[j].1.selection_set);
        let k = choose|k: int| 0 <= k < names.len() && !#[trigger] known_ranked(names[k], ft, ranked);
        assert(!known_ranked(names[k], ft, ranked));
        let t = choose|t: int| 0 <= t < ft.len() && #[trigger] ft[t].0 == names[k] && !ranked[t];
        lemma_lookup_index(ft, names[k], t);
        lemma_ss_fuel_spreads(ft[j].1.selection_set, ft, fuel);
        if ss_fuel_ok(ft[j].1.selection_set, ft, fuel) {
            assert(spread_ok(names[k], ft, fuel));
            assert(fuel > 0);
            assert(ss_fuel_ok(ft[t].1.selection_set, ft, (fuel - 1) as nat));
        }
    }
}

/// Appends the names of the fragments spread anywhere in `ss`.
fn collect_spreads(ss: &SelectionSet, out: &mut Vec<String>)
    ensures
        names_of(final(out)@) == names_of(old(out)@) + ss_spreads(*ss),
    decreases *ss, 1nat, 0nat,
{
    let ghost start = names_of(out@);
    let mut i: usize = 0;
    while i < ss.items.len()
        invariant
            i <= ss.items@.len(),
            names_of(out@) == start + items_spreads(*ss, i as nat),
        decreases ss.items@.len() - i,
    {
        collect_selection_spreads(&ss.items[i], out);
        assert(start + items_spreads(*ss, (i + 1) as nat) =~= start + items_spreads(*ss, i as nat) + sel_spreads(ss.items@[i as int]));
        i = i + 1;
    }
}

/// Appends the names of the fragments spread in `s`.
fn collect_selection_spreads(s: &Selection, out: &mut Vec<String>)
    ensures
        names_of(final(out)@) == names_of(old(out)@) + sel_spreads(*s),
    decreases *s, 0nat, 0nat,
{
    match s {
        Selection::Field(f) => {
            if typed_inline(&f.selection_set) {
                collect_union_spreads(&f.selection_set, out);
            } else {
                collect_spreads(&f.selection_set, out);
            }
        },
        Selection::FragmentSpread(name) => {
            out.push(name.clone());
            assert(names_of(out@) =~= names_of(old(out)@) + seq![name@]);
        },
        Selection::InlineFragment(i) => collect_spreads(&i.selection_set, out),
    }
}

/// Appends the names of the fragments spread in `ss` walked as a union's
/// selections.
fn collect_union_spreads(ss: &SelectionSet, out: &mut Vec<String>)
    ensures
        names_of(final(out)@) == names_of(old(out)@) + union_spreads(*ss),
    decreases *ss, 1nat, 0nat,
{
    let ghost start = names_of(out@);
    let mut i: usize = 0;
    while i < ss.items.len()
        invariant
            i <= ss.items@.len(),
            names_of(out@) == start + union_items_spreads(*ss, i as nat),
        decreases ss.items@.len() - i,
    {
        let ghost before = names_of(out@);
        match &ss.items[i] {
            Selection::Field(_) => {
                assert(union_sel_spreads(ss.items@[i as int]) =~= Seq::<Seq<char>>::empty());
            },
            Selection::FragmentSpread(name) => {
                out.push(name.clone());
                assert(names_of(out@) =~= before + seq![name@]);
            },
            Selection::InlineFragment(inl) => {
                if inl.type_condition.is_some() {
                    collect_spreads(&inl.selection_set, out);
                } else {
                    assert(union_sel_spreads(ss.items@[i as int]) =~= Seq::<Seq<char>>::empty());
                }
            },
        }
        assert(names_of(out@) =~= before + union_sel_spreads(ss.items@[i as int]));
        assert(start + union_items_spreads(*ss, (i + 1) as nat) =~= start + union_items_spreads(*ss, i as nat) + union_sel_spreads(ss.items@[i as int]));
        i = i + 1;
    }
}

/// Whether every fragment of the table that `names` spreads is marked.
fn all_known_ranked(names: &Vec<String>, fragments: &NameMap<&FragmentDefinition>, ranked: &Vec<bool>) -> (r: bool)
    requires
        ranked@.len() == fragments@.len(),
    ensures
        r == targets_ranked(names_of(names@), fragments@, ranked@),
{
    let ghost ns = names_of(names@);
    let ghost ft = fragments@;
    let mut k: usize = 0;
    while k < names.len()
        invariant
            k <= names@.len(),
            ns == names_of(names@),
            ft == fragments@,
            ranked@.len() == ft.len(),
            forall|m: int| 0 <= m < k ==> #[trigger] known_ranked(ns[m], ft, ranked@),
        decreases names@.len() - k,
    {
        assert(ns[k as int] == names@[k as int]@);
        match fragments.find(names[k].as_str()) {
            Some(t) => {
                if !ranked[t] {
                    assert(!known_ranked(ns[k as int], ft, ranked@));
                    return false;
                }
                assert forall|t2: int| 0 <= t2 < ft.len() && #[trigger] ft[t2].0 == ns[k as int] implies ranked@[t2] by {
                    if t2 != t {
                        lemma_name_lt_irreflexive(ns[k as int]);
                        if t2 < t {
                            assert(name_lt(ft[t2].0, ft[t as int].0));
                        } else {
                            assert(name_lt(ft[t as int].0, ft[t2].0));
                        }
                    }
                }
            },
            None => {
                assert forall|t2: int| 0 <= t2 < ft.len() && #[trigger] ft[t2].0 == ns[k as int] implies ranked@[t2] by {
                    lemma_lookup_index(ft, ns[k as int], t2);
                }
            },
        }
        k = k + 1;
    }
    true
}

/// Whether expanding fragment spreads ends for these documents: no fragment
/// spreads itself, directly or through other fragments.
pub fn fragments_terminate(docs: &Vec<Document>) -> (r: bool)
    ensures
        r == fragments_acyclic(docs@),
{
    let fragments = collect_fragments(docs);
    let n = fragments.len();
    let ghost ft = fragments@;
    let mut spreads: Vec<Vec<String>> = Vec::new();
    let mut j: usize = 0;
    while j < n
        invariant
            j <= n,
            n == ft.len(),
            ft == fragments@,
            spreads@.len() == j,
            forall|m: int| 0 <= m < j ==> names_of(#[trigger] spreads@[m]@) == ss_spreads(ft[m].1.selection_set),
        decreases n - j,
    {
        let mut v: Vec<String> = Vec::new();
        collect_spreads(&fragments.value_at(j).selection_set, &mut v);
        assert(names_of(v@) =~= ss_spreads(ft[j as int].1.selection_set));
        spreads.push(v);
        j = j + 1;
    }
    let mut ranked: Vec<bool> = Vec::new();
    let mut j: usize = 0;
    while j < n
        invariant
            j <= n,
            ranked@.len() == j,
            forall|m: int| 0 <= m < j ==> !#[trigger] ranked@[m],
        decreases n - j,
    {
        ranked.push(false);
        j = j + 1;
    }
    proof {
        assert(count_true(ranked@) == 0) by {
            lemma_count_zero(ranked@);
        }
    }
    let mut count: usize = 0;
    let ghost mut level: nat = 0;
    let mut changed = true;
    while changed
        invariant
            n == ft.len(),
            ft == fragments@,
            keys_sorted(ft),
            spreads@.len() == n,
            forall|m: int| 0 <= m < n ==> names_of(#[trigger] spreads@[m]@) == ss_spreads(ft[m].1.selection_set),
            ranked@.len() == n,
            count == count_true(ranked@),
            count <= n,
            forall|m: int| 0 <= m < n && #[trigger] ranked@[m] ==> ss_fuel_ok(ft[m].1.selection_set, ft, level),
            !changed ==> forall|m: int| 0 <= m < n && !ranked@[m] ==>
                !targets_ranked(ss_spreads(#[trigger] ft[m].1.selection_set), ft, ranked@),
        decreases 2 * (n - count) + (if changed { 1int } else { 0int }),
    {
        changed = false;
        let ghost start_count = count;
        let ghost start = ranked@;
        let mut j: usize = 0;
        while j < n
            invariant
                n == ft.len(),
                ft == fragments@,
                keys_sorted(ft),
                spreads@.len() == n,
                forall|m: int| 0 <= m < n ==> names_of(#[trigger] spreads@[m]@) == ss_spreads(ft[m].1.selection_set),
                j <= n,
                ranked@.len() == n,
                count == count_true(ranked@),
                count <= n,
                forall|m: int| 0 <= m < n && #[trigger] ranked@[m] ==> ss_fuel_ok(ft[m].1.selection_set, ft, level),
                !changed ==> ranked@ == start,
                !changed ==> count == start_count,
                changed ==> count > start_count,
                !changed ==> forall|m: int| 0 <= m < j && !ranked@[m] ==>
                    !targets_ranked(ss_spreads(#[trigger] ft[m].1.selection_set), ft, ranked@),
            decreases n - j,
        {
            if !ranked[j] && all_known_ranked(&spreads[j], &fragments, &ranked) {
                proof {
                    let names = ss_spreads(ft[j as int].1.selection_set);
                    assert forall|k: int| 0 <= k < names.len() implies #[trigger] spread_ok(names[k], ft, level + 1) by {
                        assert(known_ranked(names[k], ft, ranked@));
                        if lookup(ft, names[k]) is Some {
                            lemma_lookup_some(ft, names[k]);
                            let t = choose|t: int| 0 <= t < ft.len() && ft[t].0 == names[k] && lookup(ft, names[k]) == Some(ft[t].1);
                            assert(ranked@[t]);
                        }
                    }
                    lemma_ss_fuel_spreads(ft[j as int].1.selection_set, ft, level + 1);
                    assert forall|m: int| 0 <= m < n && #[trigger] ranked@[m] implies ss_fuel_ok(ft[m].1.selection_set, ft, level + 1) by {
                        lemma_ss_fuel_mono(ft[m].1.selection_set, ft, level);
                    }
                    lemma_count_true_set(ranked@, j as int);
                    lemma_count_true_bound(ranked@.update(j as int, true));
                }
                ranked.set(j, true);
                count = count + 1;
                proof {
                    level = level + 1;
                }
                changed = true;
            }
            j = j + 1;
        }
    }
    let mut j: usize = 0;
    while j < n
        invariant
            n == ft.len(),
            ranked@.len() == n,
            j <= n,
            keys_sorted(ft),
            ft == fragment_table(docs@),
            forall|m: int| 0 <= m < n && #[trigger] ranked@[m] ==> ss_fuel_ok(ft[m].1.selection_set, ft, level),
            forall|m: int| 0 <= m < n && !ranked@[m] ==>
                !targets_ranked(ss_spreads(#[trigger] ft[m].1.selection_set), ft, ranked@),
            forall|m: int| 0 <= m < j ==> #[trigger] ranked@[m],
        decreases n - j,
    {
        if !ranked[j] {
            proof {
                lemma_stuck(ft, ranked@, 0);
                assert forall|fuel: nat| !fragments_fuel_ok(ft, fuel) by {
                    lemma_stuck(ft, ranked@, fuel);
                    assert(!ss_fuel_ok(ft[j as int].1.selection_set, ft, fuel));
                }
            }
            return false;
        }
        j = j + 1;
    }
    assert(fragments_fuel_ok(ft, level));
    true
}

proof fn lemma_count_zero(s: Seq<bool>)
    requires
        forall|m: int| 0 <= m < s.len() ==> !#[trigger] s[m],
    ensures
        count_true(s) == 0,
    decreases s.len(),
{
    if s.len() > 0 {
        assert(!s.last());
        lemma_count_zero(s.drop_last());
    }
}

} // verus!

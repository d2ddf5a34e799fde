//! What holds of the draft operations on every draft: recording the same
//! fact twice changes nothing more, and the order in which two types are
//! recorded for one field or argument does not matter. The laws hold of
//! drafts whose entry lists are in order, which `lists_in_order` shows of
//! every `SchemaDraft`.
use vstd::prelude::*;

use crate::draft::{SchemaDraft, DraftView, FieldDefView, FieldsView, add_field_arg_spec, add_field_spec, ensure_object_spec,
    field_or_new, fields_of, json_type, record_arg_type, record_field_type};
use crate::name_map::{keys_sorted, lemma_lookup_some, lemma_lookup_sorted_insert, lemma_sorted_insert_sorted, lemma_sorted_insert_twice, lookup, sorted_insert};
use crate::type_ref::TypeRefView;

verus! {

/// The entry lists of a draft keep their keys in order, at every level.
pub open spec fn draft_wf(d: DraftView) -> bool {
    &&& keys_sorted(d.objects)
    &&& forall|i: int| 0 <= i < d.objects.len() ==> keys_sorted(#[trigger] d.objects[i].1)
    &&& keys_sorted(d.inputs)
    &&& keys_sorted(d.unions)
    &&& keys_sorted(d.scalars)
}

/// Every entry list of a draft keeps its names in order, down to the
/// arguments of each field.
pub open spec fn draft_ordered(d: DraftView) -> bool {
    &&& draft_wf(d)
    &&& forall|i: int| 0 <= i < d.objects.len() ==> fields_args_sorted(#[trigger] d.objects[i].1)
}

impl SchemaDraft {
    /// Every draft keeps its entry lists in order, at every level: each
    /// `NameMap` does. This reads that off the maps, so that a caller can
    /// apply the laws of this module to a draft it holds.
    pub fn lists_in_order(&self)
        ensures
            draft_ordered(self@),
    {
        self.inputs.len();
        self.unions.len();
        self.scalars.len();
        let n = self.objects.len();
        let mut i: usize = 0;
        while i < n
            invariant
                n == self@.objects.len(),
                i <= n,
                keys_sorted(self@.objects),
                keys_sorted(self@.inputs),
                keys_sorted(self@.unions),
                keys_sorted(self@.scalars),
                forall|k: int| 0 <= k < i ==> keys_sorted(#[trigger] self@.objects[k].1),
                forall|k: int| 0 <= k < i ==> fields_args_sorted(#[trigger] self@.objects[k].1),
            decreases n - i,
        {
            let fields = self.objects.value_at(i);
            let m = fields.len();
            let mut j: usize = 0;
            while j < m
                invariant
                    m == fields@.len(),
                    j <= m,
                    forall|l: int| 0 <= l < j ==> keys_sorted(#[trigger] fields@[l].1.args),
                decreases m - j,
            {
                fields.value_at(j).args.len();
                j = j + 1;
            }
            i = i + 1;
        }
    }
}

proof fn lemma_fields_sorted(d: DraftView, o: Seq<char>)
    requires
        draft_wf(d),
    ensures
        keys_sorted(fields_of(d, o)),
{
    if lookup(d.objects, o) is Some {
        lemma_lookup_some(d.objects, o);
        let i = choose|i: int| 0 <= i < d.objects.len() && d.objects[i].0 == o && lookup(d.objects, o) == Some(d.objects[i].1);
        assert(keys_sorted(d.objects[i].1));
    }
}

/// Making sure an object type exists keeps the draft's lists in order.
proof fn lemma_ensure_wf(d: DraftView, o: Seq<char>)
    requires
        draft_wf(d),
    ensures
        draft_wf(ensure_object_spec(d, o)),
        lookup(ensure_object_spec(d, o).objects, o) is Some,
{
    if lookup(d.objects, o) is None {
        lemma_sorted_insert_sorted(d.objects, o, Seq::empty());
        lemma_lookup_sorted_insert(d.objects, o, Seq::empty(), o);
        let r = sorted_insert(d.objects, o, Seq::<(Seq<char>, FieldDefView)>::empty());
        assert forall|i: int| 0 <= i < r.len() implies keys_sorted(#[trigger] r[i].1) by {
            if r[i].0 != o {
                let m = choose|m: int| 0 <= m < d.objects.len() && d.objects[m].0 == r[i].0;
                crate::name_map::lemma_lookup_index(d.objects, r[i].0, m);
                crate::name_map::lemma_lookup_index(r, r[i].0, i);
                lemma_lookup_sorted_insert(d.objects, o, Seq::empty(), r[i].0);
                assert(keys_sorted(d.objects[m].1));
            } else {
                crate::name_map::lemma_lookup_index(r, o, i);
            }
        }
    }
}

/// Making sure that an object type exists twice is making sure once.
pub proof fn law_ensure_object_idempotent(d: DraftView, name: Seq<char>)
    ensures
        ensure_object_spec(ensure_object_spec(d, name), name) == ensure_object_spec(d, name),
{
    lemma_lookup_sorted_insert(d.objects, name, Seq::empty(), name);
}

/// Making sure an object type exists keeps every object type there was, with its fields.
pub proof fn law_ensure_object_keeps(d: DraftView, name: Seq<char>, other: Seq<char>)
    ensures
        lookup(ensure_object_spec(d, name).objects, name) is Some,
        other != name ==> lookup(ensure_object_spec(d, name).objects, other) == lookup(d.objects, other),
        lookup(d.objects, name) is Some ==> ensure_object_spec(d, name) == d,
{
    lemma_lookup_sorted_insert(d.objects, name, Seq::empty(), name);
    lemma_lookup_sorted_insert(d.objects, name, Seq::empty(), other);
}

/// Field `f` with no arguments and type `ty`.
pub open spec fn new_field(f: Seq<char>, ty: TypeRefView) -> FieldDefView {
    FieldDefView { name: f, ty, args: Seq::empty() }
}

/// The field list after recording types `t1` and `t2` for field `f`, in
/// either order: the field keeps the one type that all recordings agree on,
/// and is `JSON` otherwise.
pub open spec fn record_both(fields: FieldsView, f: Seq<char>, t1: TypeRefView, t2: TypeRefView) -> FieldsView {
    match lookup(fields, f) {
        None => if t1 == t2 {
            sorted_insert(fields, f, new_field(f, t1))
        } else {
            sorted_insert(fields, f, new_field(f, json_type()))
        },
        Some(fd) => if fd.ty == t1 && fd.ty == t2 {
            fields
        } else {
            sorted_insert(fields, f, FieldDefView { name: fd.name, ty: json_type(), args: fd.args })
        },
    }
}

proof fn lemma_record_twice(fields: FieldsView, f: Seq<char>, t1: TypeRefView, t2: TypeRefView)
    requires
        keys_sorted(fields),
    ensures
        record_field_type(record_field_type(fields, f, t1), f, t2) == record_both(fields, f, t1, t2),
        keys_sorted(record_field_type(fields, f, t1)),
{
    let r1 = record_field_type(fields, f, t1);
    match lookup(fields, f) {
        None => {
            let n1 = new_field(f, t1);
            lemma_sorted_insert_sorted(fields, f, n1);
            lemma_lookup_sorted_insert(fields, f, n1, f);
            lemma_sorted_insert_twice(fields, f, n1, new_field(f, json_type()));
        },
        Some(fd) => {
            let fj = FieldDefView { name: fd.name, ty: json_type(), args: fd.args };
            if fd.ty == t1 {
                if fd.ty != t2 {
                    assert(r1 == fields);
                }
            } else {
                lemma_sorted_insert_sorted(fields, f, fj);
                lemma_lookup_sorted_insert(fields, f, fj, f);
                assert(lookup(r1, f) == Some(fj));
                if fj.ty != t2 {
                    lemma_sorted_insert_twice(fields, f, fj, fj);
                }
            }
        },
    }
}

proof fn lemma_add_field_shape(d: DraftView, o: Seq<char>, f: Seq<char>, t: TypeRefView)
    requires
        draft_wf(d),
    ensures
        draft_wf(add_field_spec(d, o, f, t)),
        fields_of(add_field_spec(d, o, f, t), o) == record_field_type(fields_of(ensure_object_spec(d, o), o), f, t),
        ensure_object_spec(add_field_spec(d, o, f, t), o) == add_field_spec(d, o, f, t),
{
    let d1 = ensure_object_spec(d, o);
    lemma_ensure_wf(d, o);
    lemma_fields_sorted(d1, o);
    let f1 = record_field_type(fields_of(d1, o), f, t);
    lemma_record_twice(fields_of(d1, o), f, t, t);
    lemma_lookup_sorted_insert(d1.objects, o, f1, o);
    lemma_sorted_insert_sorted(d1.objects, o, f1);
    let r = sorted_insert(d1.objects, o, f1);
    assert forall|i: int| 0 <= i < r.len() implies keys_sorted(#[trigger] r[i].1) by {
        crate::name_map::lemma_lookup_index(r, r[i].0, i);
        lemma_lookup_sorted_insert(d1.objects, o, f1, r[i].0);
        if r[i].0 != o {
            lemma_lookup_some(d1.objects, r[i].0);
            let m = choose|m: int| 0 <= m < d1.objects.len() && d1.objects[m].0 == r[i].0 && lookup(d1.objects, r[i].0) == Some(d1.objects[m].1);
            assert(keys_sorted(d1.objects[m].1));
        }
    }
}

/// Recording the same type for a field twice is recording it once.
pub proof fn law_add_field_idempotent(d: DraftView, object: Seq<char>, f: Seq<char>, ty: TypeRefView)
    requires
        draft_ordered(d),
    ensures
        add_field_spec(add_field_spec(d, object, f, ty), object, f, ty) == add_field_spec(d, object, f, ty),
{
    let d1 = ensure_object_spec(d, object);
    let big = add_field_spec(d, object, f, ty);
    lemma_add_field_shape(d, object, f, ty);
    lemma_ensure_wf(d, object);
    lemma_fields_sorted(d1, object);
    lemma_record_twice(fields_of(d1, object), f, ty, ty);
    let f1 = record_field_type(fields_of(d1, object), f, ty);
    assert(record_field_type(f1, f, ty) == f1);
    lemma_sorted_insert_twice(d1.objects, object, f1, f1);
}

/// The order in which two types are recorded for one field does not matter.
pub proof fn law_add_field_commutes(d: DraftView, object: Seq<char>, f: Seq<char>, t1: TypeRefView, t2: TypeRefView)
    requires
        draft_ordered(d),
    ensures
        add_field_spec(add_field_spec(d, object, f, t1), object, f, t2)
            == add_field_spec(add_field_spec(d, object, f, t2), object, f, t1),
{
    let d1 = ensure_object_spec(d, object);
    lemma_add_field_shape(d, object, f, t1);
    lemma_add_field_shape(d, object, f, t2);
    lemma_ensure_wf(d, object);
    lemma_fields_sorted(d1, object);
    let fs = fields_of(d1, object);
    lemma_record_twice(fs, f, t1, t2);
    lemma_record_twice(fs, f, t2, t1);
    let a1 = record_field_type(fs, f, t1);
    let a2 = record_field_type(fs, f, t2);
    lemma_sorted_insert_twice(d1.objects, object, a1, record_field_type(a1, f, t2));
    lemma_sorted_insert_twice(d1.objects, object, a2, record_field_type(a2, f, t1));
    assert(record_both(fs, f, t1, t2) == record_both(fs, f, t2, t1));
}

/// The argument list after recording types `t1` and `t2` for argument `a`, in
/// either order: the one type that all recordings agree on, `JSON` otherwise.
pub open spec fn record_arg_both(args: Seq<(Seq<char>, TypeRefView)>, a: Seq<char>, t1: TypeRefView, t2: TypeRefView) -> Seq<(Seq<char>, TypeRefView)> {
    match lookup(args, a) {
        None => if t1 == t2 { sorted_insert(args, a, t1) } else { sorted_insert(args, a, json_type()) },
        Some(t) => if t == t1 && t == t2 { args } else { sorted_insert(args, a, json_type()) },
    }
}

proof fn lemma_record_arg_twice(args: Seq<(Seq<char>, TypeRefView)>, a: Seq<char>, t1: TypeRefView, t2: TypeRefView)
    requires
        keys_sorted(args),
    ensures
        record_arg_type(record_arg_type(args, a, t1), a, t2) == record_arg_both(args, a, t1, t2),
{
    match lookup(args, a) {
        None => {
            lemma_sorted_insert_sorted(args, a, t1);
            lemma_lookup_sorted_insert(args, a, t1, a);
            lemma_sorted_insert_twice(args, a, t1, json_type());
        },
        Some(t) => {
            if t != t1 {
                lemma_sorted_insert_sorted(args, a, json_type());
                lemma_lookup_sorted_insert(args, a, json_type(), a);
                lemma_sorted_insert_twice(args, a, json_type(), json_type());
            }
        },
    }
}

/// The field that `add_field_arg` rewrites, with its argument recorded.
spec fn field_with_arg(fields: FieldsView, f: Seq<char>, a: Seq<char>, ty: TypeRefView) -> FieldDefView {
    let fd = field_or_new(fields, f);
    FieldDefView { name: fd.name, ty: fd.ty, args: record_arg_type(fd.args, a, ty) }
}

/// The fields of a draft whose entry lists are in order keep their arguments in order.
pub open spec fn fields_args_sorted(fields: FieldsView) -> bool {
    forall|i: int| 0 <= i < fields.len() ==> keys_sorted(#[trigger] fields[i].1.args)
}

/// The fields of an object type of an ordered draft keep their arguments in order.
proof fn lemma_ordered_fields(d: DraftView, o: Seq<char>)
    requires
        draft_ordered(d),
    ensures
        fields_args_sorted(fields_of(ensure_object_spec(d, o), o)),
{
    if lookup(d.objects, o) is Some {
        lemma_lookup_some(d.objects, o);
        let i = choose|i: int| 0 <= i < d.objects.len() && d.objects[i].0 == o && lookup(d.objects, o) == Some(d.objects[i].1);
        assert(fields_args_sorted(d.objects[i].1));
    } else {
        lemma_lookup_sorted_insert(d.objects, o, Seq::<(Seq<char>, FieldDefView)>::empty(), o);
    }
}

proof fn lemma_field_or_new_sorted(fields: FieldsView, f: Seq<char>)
    requires
        fields_args_sorted(fields),
    ensures
        keys_sorted(field_or_new(fields, f).args),
{
    if lookup(fields, f) is Some {
        lemma_lookup_some(fields, f);
        let i = choose|i: int| 0 <= i < fields.len() && fields[i].0 == f && lookup(fields, f) == Some(fields[i].1);
        assert(keys_sorted(fields[i].1.args));
    }
}

/// Recording the same type for an argument twice is recording it once.
pub proof fn law_add_field_arg_idempotent(d: DraftView, object: Seq<char>, f: Seq<char>, a: Seq<char>, ty: TypeRefView)
    requires
        draft_ordered(d),
    ensures
        add_field_arg_spec(add_field_arg_spec(d, object, f, a, ty), object, f, a, ty)
            == add_field_arg_spec(d, object, f, a, ty),
{
    let d1 = ensure_object_spec(d, object);
    lemma_ensure_wf(d, object);
    lemma_ordered_fields(d, object);
    let fs = fields_of(d1, object);
    let fd = field_or_new(fs, f);
    lemma_field_or_new_sorted(fs, f);
    lemma_record_arg_twice(fd.args, a, ty, ty);
    let nfd = field_with_arg(fs, f, a, ty);
    let fs1 = sorted_insert(fs, f, nfd);
    lemma_lookup_sorted_insert(fs, f, nfd, f);
    lemma_lookup_sorted_insert(d1.objects, object, fs1, object);
    let dd = add_field_arg_spec(d, object, f, a, ty);
    assert(ensure_object_spec(dd, object) == dd);
    assert(fields_of(dd, object) == fs1);
    assert(field_or_new(fs1, f) == nfd);
    assert(field_with_arg(fs1, f, a, ty) == nfd);
    lemma_sorted_insert_twice(fs, f, nfd, nfd);
    lemma_sorted_insert_twice(d1.objects, object, fs1, fs1);
}

/// The order in which two types are recorded for one argument does not matter.
pub proof fn law_add_field_arg_commutes(d: DraftView, object: Seq<char>, f: Seq<char>, a: Seq<char>,
    t1: TypeRefView, t2: TypeRefView)
    requires
        draft_ordered(d),
    ensures
        add_field_arg_spec(add_field_arg_spec(d, object, f, a, t1), object, f, a, t2)
            == add_field_arg_spec(add_field_arg_spec(d, object, f, a, t2), object, f, a, t1),
{
    let d1 = ensure_object_spec(d, object);
    lemma_ensure_wf(d, object);
    lemma_ordered_fields(d, object);
    let fs = fields_of(d1, object);
    let fd = field_or_new(fs, f);
    lemma_field_or_new_sorted(fs, f);
    lemma_record_arg_twice(fd.args, a, t1, t2);
    lemma_record_arg_twice(fd.args, a, t2, t1);
    let n1 = field_with_arg(fs, f, a, t1);
    let n2 = field_with_arg(fs, f, a, t2);
    let fs1 = sorted_insert(fs, f, n1);
    let fs2 = sorted_insert(fs, f, n2);
    lemma_lookup_sorted_insert(fs, f, n1, f);
    lemma_lookup_sorted_insert(fs, f, n2, f);
    lemma_lookup_sorted_insert(d1.objects, object, fs1, object);
    lemma_lookup_sorted_insert(d1.objects, object, fs2, object);
    let both = FieldDefView { name: fd.name, ty: fd.ty, args: record_arg_both(fd.args, a, t1, t2) };
    assert(record_arg_both(fd.args, a, t1, t2) == record_arg_both(fd.args, a, t2, t1));
    assert(field_with_arg(fs1, f, a, t2) == both);
    assert(field_with_arg(fs2, f, a, t1) == both);
    lemma_sorted_insert_twice(fs, f, n1, both);
    lemma_sorted_insert_twice(fs, f, n2, both);
    lemma_sorted_insert_twice(d1.objects, object, fs1, sorted_insert(fs, f, both));
    lemma_sorted_insert_twice(d1.objects, object, fs2, sorted_insert(fs, f, both));
}

} // verus!

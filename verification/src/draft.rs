//! The schema under construction: object types with their fields, input
//! types, unions and scalars, each kept in name order.
use vstd::prelude::*;

use crate::name_map::{NameMap, lookup, sorted_insert, keys_sorted, lemma_lookup_sorted_insert, lemma_update_is_insert};
use crate::type_ref::{TypeRef, TypeRefView, named_type};

verus! {

/// A set of names, kept in order.
pub type NameSet = NameMap<()>;

/// A field of an object type: its name, its type and its arguments.
#[derive(Debug)]
pub struct FieldDef {
    pub name: String,
    pub ty: TypeRef,
    pub args: NameMap<TypeRef>,
}

/// What a `FieldDef` holds.
pub struct FieldDefView {
    pub name: Seq<char>,
    pub ty: TypeRefView,
    pub args: Seq<(Seq<char>, TypeRefView)>,
}

impl View for FieldDef {
    type V = FieldDefView;

    open spec fn view(&self) -> FieldDefView {
        FieldDefView { name: self.name@, ty: self.ty@, args: self.args@ }
    }
}

/// The fields of one object type, by name.
pub type FieldsView = Seq<(Seq<char>, FieldDefView)>;

/// A set of names, as an ordered entry list.
pub type NamesView = Seq<(Seq<char>, ())>;

/// A schema draft: object types (with their fields), input types, unions
/// (with their members) and scalars.
#[derive(Debug)]
pub struct SchemaDraft {
    pub objects: NameMap<NameMap<FieldDef>>,
    pub inputs: NameSet,
    pub unions: NameMap<NameSet>,
    pub scalars: NameSet,
}

/// What a `SchemaDraft` holds.
pub struct DraftView {
    pub objects: Seq<(Seq<char>, FieldsView)>,
    pub inputs: NamesView,
    pub unions: Seq<(Seq<char>, NamesView)>,
    pub scalars: NamesView,
}

impl View for SchemaDraft {
    type V = DraftView;

    open spec fn view(&self) -> DraftView {
        DraftView {
            objects: self.objects@,
            inputs: self.inputs@,
            unions: self.unions@,
            scalars: self.scalars@,
        }
    }
}

/// A draft with nothing in it.
pub open spec fn empty_draft() -> DraftView {
    DraftView { objects: Seq::empty(), inputs: Seq::empty(), unions: Seq::empty(), scalars: Seq::empty() }
}

/// The catch-all scalar `JSON`.
pub open spec fn json_type() -> TypeRefView {
    named_type("JSON"@)
}

/// The draft with object type `name` present (with no fields if it was absent).
pub open spec fn ensure_object_spec(d: DraftView, name: Seq<char>) -> DraftView {
    if lookup(d.objects, name) is Some {
        d
    } else {
        DraftView { objects: sorted_insert(d.objects, name, Seq::empty()), ..d }
    }
}

/// The fields of object type `name` (none if it is absent).
pub open spec fn fields_of(d: DraftView, name: Seq<char>) -> FieldsView {
    match lookup(d.objects, name) {
        Some(fields) => fields,
        None => Seq::empty(),
    }
}

/// Fields after recording that field `f` has type `ty`: a new field gets
/// `ty`; a field with another type becomes `JSON`.
pub open spec fn record_field_type(fields: FieldsView, f: Seq<char>, ty: TypeRefView) -> FieldsView {
    match lookup(fields, f) {
        Some(fd) => if fd.ty == ty {
            fields
        } else {
            sorted_insert(fields, f, FieldDefView { name: fd.name, ty: json_type(), args: fd.args })
        },
        None => sorted_insert(fields, f, FieldDefView { name: f, ty: ty, args: Seq::empty() }),
    }
}

/// The draft after `add_field(object, f, ty)`.
pub open spec fn add_field_spec(d: DraftView, object: Seq<char>, f: Seq<char>, ty: TypeRefView) -> DraftView {
    let d1 = ensure_object_spec(d, object);
    DraftView {
        objects: sorted_insert(d1.objects, object, record_field_type(fields_of(d1, object), f, ty)),
        ..d1
    }
}

/// Arguments after recording that argument `a` has type `ty`: a new
/// argument gets `ty`; an argument with another type becomes `JSON`.
pub open spec fn record_arg_type(args: Seq<(Seq<char>, TypeRefView)>, a: Seq<char>, ty: TypeRefView) -> Seq<(Seq<char>, TypeRefView)> {
    match lookup(args, a) {
        Some(t) => if t == ty { args } else { sorted_insert(args, a, json_type()) },
        None => sorted_insert(args, a, ty),
    }
}

/// The field `f` of a field list, or a new field of type `JSON` without arguments.
pub open spec fn field_or_new(fields: FieldsView, f: Seq<char>) -> FieldDefView {
    match lookup(fields, f) {
        Some(fd) => fd,
        None => FieldDefView { name: f, ty: json_type(), args: Seq::empty() },
    }
}

/// The draft after `add_field_arg(object, f, a, ty)`.
pub open spec fn add_field_arg_spec(d: DraftView, object: Seq<char>, f: Seq<char>, a: Seq<char>, ty: TypeRefView) -> DraftView {
    let d1 = ensure_object_spec(d, object);
    let fields = fields_of(d1, object);
    let fd = field_or_new(fields, f);
    let new_fd = FieldDefView { name: fd.name, ty: fd.ty, args: record_arg_type(fd.args, a, ty) };
    DraftView { objects: sorted_insert(d1.objects, object, sorted_insert(fields, f, new_fd)), ..d1 }
}

impl Clone for FieldDef {
    fn clone(&self) -> (r: FieldDef)
        ensures
            r@ == self@,
    {
        FieldDef { name: self.name.clone(), ty: self.ty.duplicate(), args: self.args.duplicate() }
    }
}

impl FieldDef {
    /// A field that holds nothing yet, used while its slot is being rewritten.
    fn blank() -> (r: FieldDef)
        ensures
            r@ == (FieldDefView { name: Seq::empty(), ty: json_type(), args: Seq::empty() }),
    {
        FieldDef { name: String::new(), ty: TypeRef::named("JSON"), args: NameMap::new() }
    }
}

impl SchemaDraft {
    /// An empty draft.
    pub fn new() -> (r: SchemaDraft)
        ensures
            r@ == empty_draft(),
    {
        SchemaDraft { objects: NameMap::new(), inputs: NameMap::new(), unions: NameMap::new(), scalars: NameMap::new() }
    }

    /// Makes sure object type `name` exists (with no fields if it was absent).
    pub fn ensure_object(&mut self, name: &str)
        ensures
            final(self)@ == ensure_object_spec(old(self)@, name@),
    {
        if !self.objects.contains_key(name) {
            self.objects.insert(name.to_owned(), NameMap::new());
        }
    }

    /// Position of object type `name`, which must exist.
    fn object_index(&self, name: &str) -> (r: usize)
        requires
            lookup(self@.objects, name@) is Some,
        ensures
            r < self@.objects.len(),
            self@.objects[r as int].0 == name@,
            lookup(self@.objects, name@) == Some(self@.objects[r as int].1),
            keys_sorted(self@.objects),
    {
        match self.objects.find(name) {
            Some(i) => i,
            None => {
                assert(false);
                0
            },
        }
    }

    /// Records that field `field_name` of object type `object` has type `ty`:
    /// a new field gets `ty`; a field already typed otherwise becomes `JSON`.
    pub fn add_field(&mut self, object: &str, field_name: &str, ty: TypeRef)
        ensures
            final(self)@ == add_field_spec(old(self)@, object@, field_name@, ty@),
    {
        self.ensure_object(object);
        proof {
            lemma_lookup_sorted_insert(old(self)@.objects, object@, Seq::empty(), object@);
        }
        let ghost d1 = self@;
        let i = self.object_index(object);
        let mut fields = self.objects.swap_value(i, NameMap::new());
        let ghost before = fields@;
        match fields.find(field_name) {
            Some(j) => {
                if fields.value_at(j).ty != ty {
                    let mut fd = fields.swap_value(j, FieldDef::blank());
                    fd.ty = TypeRef::named("JSON");
                    fields.swap_value(j, fd);
                    proof {
                        lemma_update_is_insert(before, j as int, fd@);
                        assert(fields@ =~= before.update(j as int, (before[j as int].0, fd@)));
                    }
                }
            },
            None => {
                fields.insert(field_name.to_owned(), FieldDef { name: field_name.to_owned(), ty, args: NameMap::new() });
            },
        }
        let ghost new_fields = fields@;
        assert(new_fields == record_field_type(fields_of(d1, object@), field_name@, ty@));
        self.objects.swap_value(i, fields);
        proof {
            lemma_update_is_insert(d1.objects, i as int, new_fields);
            assert(self@.objects =~= d1.objects.update(i as int, (object@, new_fields)));
        }
    }

    /// Records that argument `arg_name` of field `field_name` of object type
    /// `object` has type `ty`, creating the field (typed `JSON`) if needed: a
    /// new argument gets `ty`; an argument already typed otherwise becomes `JSON`.
    pub fn add_field_arg(&mut self, object: &str, field_name: &str, arg_name: &str, ty: TypeRef)
        ensures
            final(self)@ == add_field_arg_spec(old(self)@, object@, field_name@, arg_name@, ty@),
    {
        self.ensure_object(object);
        proof {
            lemma_lookup_sorted_insert(old(self)@.objects, object@, Seq::empty(), object@);
        }
        let ghost d1 = self@;
        let i = self.object_index(object);
        let mut fields = self.objects.swap_value(i, NameMap::new());
        let ghost before = fields@;
        let pos = fields.find(field_name);
        let mut fd = match pos {
            Some(j) => fields.swap_value(j, FieldDef::blank()),
            None => FieldDef { name: field_name.to_owned(), ty: TypeRef::named("JSON"), args: NameMap::new() },
        };
        let ghost old_fd = fd@;
        assert(old_fd == field_or_new(before, field_name@));
        match fd.args.find(arg_name) {
            Some(k) => {
                if *fd.args.value_at(k) != ty {
                    let ghost old_args = fd.args@;
                    fd.args.swap_value(k, TypeRef::named("JSON"));
                    proof {
                        lemma_update_is_insert(old_args, k as int, json_type());
                    }
                }
            },
            None => {
                fd.args.insert(arg_name.to_owned(), ty);
            },
        }
        let ghost new_fd = fd@;
        assert(new_fd == FieldDefView { name: old_fd.name, ty: old_fd.ty, args: record_arg_type(old_fd.args, arg_name@, ty@) });
        match pos {
            Some(j) => {
                fields.swap_value(j, fd);
                proof {
                    lemma_update_is_insert(before, j as int, new_fd);
                    assert(fields@ =~= before.update(j as int, (before[j as int].0, new_fd)));
                }
            },
            None => {
                fields.insert(field_name.to_owned(), fd);
            },
        }
        let ghost new_fields = fields@;
        assert(new_fields == sorted_insert(before, field_name@, new_fd));
        self.objects.swap_value(i, fields);
        proof {
            lemma_update_is_insert(d1.objects, i as int, new_fields);
            assert(self@.objects =~= d1.objects.update(i as int, (object@, new_fields)));
        }
    }
}

impl Default for SchemaDraft {
    fn default() -> (r: SchemaDraft)
        ensures
            r@ == empty_draft(),
    {
        SchemaDraft::new()
    }
}

} // verus!

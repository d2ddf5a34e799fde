//! References to GraphQL types (`Name`, `[T]`, `T!`) and their text.
use vstd::prelude::*;
use vstd::std_specs::cmp::PartialEqSpecImpl;

use crate::keys::name_eq;

verus! {

/// A reference to a GraphQL type, as it appears on a field or an argument.
#[derive(Debug, Eq, PartialOrd, Ord)]
pub enum TypeRef {
    Named(String),
    List(Box<TypeRef>),
    NonNull(Box<TypeRef>),
}

/// What a `TypeRef` denotes: the same tree, with names as character sequences.
pub enum TypeRefView {
    Named(Seq<char>),
    List(Box<TypeRefView>),
    NonNull(Box<TypeRefView>),
}

/// The tree that a `TypeRef` denotes.
pub open spec fn type_ref_view(t: TypeRef) -> TypeRefView
    decreases t,
{
    match t {
        TypeRef::Named(n) => TypeRefView::Named(n@),
        TypeRef::List(inner) => TypeRefView::List(Box::new(type_ref_view(*inner))),
        TypeRef::NonNull(inner) => TypeRefView::NonNull(Box::new(type_ref_view(*inner))),
    }
}

impl View for TypeRef {
    type V = TypeRefView;

    open spec fn view(&self) -> TypeRefView {
        type_ref_view(*self)
    }
}

/// The named type `name`.
pub open spec fn named_type(name: Seq<char>) -> TypeRefView {
    TypeRefView::Named(name)
}

/// The GraphQL text of a type reference: the name, `[inner]`, or `inner!`.
pub open spec fn type_ref_text(t: TypeRefView) -> Seq<char>
    decreases t,
{
    match t {
        TypeRefView::Named(n) => n,
        TypeRefView::List(inner) => "["@ + type_ref_text(*inner) + "]"@,
        TypeRefView::NonNull(inner) => type_ref_text(*inner) + "!"@,
    }
}

/// Structural equality of type references, decided on the executable trees.
fn same_type_ref(a: &TypeRef, b: &TypeRef) -> (r: bool)
    ensures
        r == (a@ == b@),
    decreases a,
{
    match a {
        TypeRef::Named(x) => match b {
            TypeRef::Named(y) => name_eq(x.as_str(), y.as_str()),
            _ => false,
        },
        TypeRef::List(x) => match b {
            TypeRef::List(y) => {
                let r = same_type_ref(x, y);
                assert(a@ == b@ ==> (**x)@ == (**y)@);
                r
            },
            _ => false,
        },
        TypeRef::NonNull(x) => match b {
            TypeRef::NonNull(y) => {
                let r = same_type_ref(x, y);
                assert(a@ == b@ ==> (**x)@ == (**y)@);
                r
            },
            _ => false,
        },
    }
}

impl TypeRef {
    /// The named type `name`.
    pub fn named(name: &str) -> (r: TypeRef)
        ensures
            r@ == named_type(name@),
    {
        TypeRef::Named(name.to_owned())
    }

    /// A copy of this type reference.
    pub fn duplicate(&self) -> (r: TypeRef)
        ensures
            r@ == self@,
        decreases self,
    {
        match self {
            TypeRef::Named(n) => TypeRef::Named(n.clone()),
            TypeRef::List(inner) => TypeRef::List(Box::new(inner.duplicate())),
            TypeRef::NonNull(inner) => TypeRef::NonNull(Box::new(inner.duplicate())),
        }
    }
}

impl Clone for TypeRef {
    fn clone(&self) -> (r: TypeRef)
        ensures
            r@ == self@,
    {
        self.duplicate()
    }
}

impl PartialEq for TypeRef {
    fn eq(&self, other: &TypeRef) -> (r: bool) {
        same_type_ref(self, other)
    }
}

impl PartialEqSpecImpl for TypeRef {
    open spec fn obeys_eq_spec() -> bool {
        true
    }

    open spec fn eq_spec(&self, other: &TypeRef) -> bool {
        self@ == other@
    }
}

/// The GraphQL text of a type reference.
pub fn render_type_ref(ty: &TypeRef) -> (r: String)
    ensures
        r@ == type_ref_text(ty@),
    decreases ty,
{
    match ty {
        TypeRef::Named(n) => n.clone(),
        TypeRef::List(inner) => {
            let mut out = String::new();
            out.append("[");
            let s = render_type_ref(inner);
            out.append(s.as_str());
            out.append("]");
            out
        },
        TypeRef::NonNull(inner) => {
            let mut out = render_type_ref(inner);
            out.append("!");
            out
        },
    }
}

} // verus!

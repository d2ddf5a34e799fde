//! Best-effort guesses of GraphQL types from names and argument values.
use vstd::prelude::*;

use crate::document::{ArgValue, VarType, VariableDefinition};
use crate::draft::{NameSet, NamesView, SchemaDraft, DraftView};
use crate::keys::name_eq;
use crate::name_map::{NameMap, lookup, sorted_insert};
use crate::text::{starts_with, ends_with, has_prefix, has_suffix, push_char, upper_case, char_upper};
use crate::type_ref::{TypeRef, TypeRefView, named_type, type_ref_text};

verus! {

/// The scalars that GraphQL defines: `String`, `Int`, `Float`, `Boolean`, `ID`.
pub open spec fn builtin_scalar(name: Seq<char>) -> bool {
    name == "String"@ || name == "Int"@ || name == "Float"@ || name == "Boolean"@ || name == "ID"@
}

/// Whether `name` is one of GraphQL's own scalars.
pub fn is_builtin_scalar(name: &str) -> (r: bool)
    ensures
        r == builtin_scalar(name@),
{
    name_eq(name, "String") || name_eq(name, "Int") || name_eq(name, "Float")
        || name_eq(name, "Boolean") || name_eq(name, "ID")
}

/// The type guessed for a leaf field (one without sub-selections) from its name.
pub open spec fn leaf_scalar(f: Seq<char>) -> TypeRefView {
    if f == "id"@ {
        TypeRefView::NonNull(Box::new(named_type("ID"@)))
    } else if f == "cursor"@ {
        TypeRefView::NonNull(Box::new(named_type("String"@)))
    } else if ends_with(f, "Id"@) || ends_with(f, "ID"@) {
        named_type("ID"@)
    } else if f == "name"@ || ends_with(f, "Name"@) {
        named_type("String"@)
    } else if f == "date"@ || ends_with(f, "Date"@) {
        named_type("String"@)
    } else if f == "month"@ {
        named_type("String"@)
    } else if starts_with(f, "is"@) {
        named_type("Boolean"@)
    } else {
        named_type("JSON"@)
    }
}

/// Guesses the type of a leaf field from its name: `id` is `ID!`, `cursor`
/// is `String!`, `…Id`/`…ID` are `ID`, names and dates are `String`, `is…`
/// is `Boolean`, anything else `JSON`.
pub fn infer_leaf_scalar(field_name: &str) -> (r: TypeRef)
    ensures
        r@ == leaf_scalar(field_name@),
{
    if name_eq(field_name, "id") {
        return TypeRef::NonNull(Box::new(TypeRef::named("ID")));
    }
    if name_eq(field_name, "cursor") {
        return TypeRef::NonNull(Box::new(TypeRef::named("String")));
    }
    if has_suffix(field_name, "Id") || has_suffix(field_name, "ID") {
        return TypeRef::named("ID");
    }
    if name_eq(field_name, "name") || has_suffix(field_name, "Name") {
        return TypeRef::named("String");
    }
    if name_eq(field_name, "date") || has_suffix(field_name, "Date") {
        return TypeRef::named("String");
    }
    if name_eq(field_name, "month") {
        return TypeRef::named("String");
    }
    if has_prefix(field_name, "is") {
        return TypeRef::named("Boolean");
    }
    TypeRef::named("JSON")
}

/// `_`, `-` and space separate words.
pub open spec fn word_separator(c: char) -> bool {
    c == '_' || c == '-' || c == ' '
}

/// PascalCase of `s`, where `upper` says whether the next kept character
/// starts a word: separators are dropped and each word's first character is
/// upper-cased.
pub open spec fn pascal_from(s: Seq<char>, upper: bool) -> Seq<char>
    decreases s.len(),
{
    if s.len() == 0 {
        Seq::empty()
    } else if word_separator(s[0]) {
        pascal_from(s.drop_first(), true)
    } else if upper {
        char_upper(s[0]) + pascal_from(s.drop_first(), false)
    } else {
        seq![s[0]] + pascal_from(s.drop_first(), false)
    }
}

/// PascalCase of `s`.
pub open spec fn pascal(s: Seq<char>) -> Seq<char> {
    pascal_from(s, true)
}

/// The ASCII upper case of `c`: `a`..`z` become `A`..`Z`, anything else stays.
pub open spec fn ascii_upper(c: char) -> char {
    if 'a' <= c <= 'z' {
        ((c as u32) - 32) as char
    } else {
        c
    }
}

/// `pascal_from` where the upper case is taken by `ascii_upper`, as it is
/// for ASCII text.
pub open spec fn ascii_pascal_from(s: Seq<char>, upper: bool) -> Seq<char>
    decreases s.len(),
{
    if s.len() == 0 {
        Seq::empty()
    } else if word_separator(s[0]) {
        ascii_pascal_from(s.drop_first(), true)
    } else if upper {
        seq![ascii_upper(s[0])] + ascii_pascal_from(s.drop_first(), false)
    } else {
        seq![s[0]] + ascii_pascal_from(s.drop_first(), false)
    }
}

/// PascalCase of ASCII text.
pub open spec fn ascii_pascal(s: Seq<char>) -> Seq<char> {
    ascii_pascal_from(s, true)
}

proof fn lemma_ascii_upper(c: char)
    ensures
        ascii_upper(ascii_upper(c)) == ascii_upper(c),
        !word_separator(c) ==> !word_separator(ascii_upper(c)),
        (c as u32) < 128 ==> (ascii_upper(c) as u32) < 128,
{
    if 'a' <= c <= 'z' {
        assert(65 <= (c as u32) - 32 <= 90);
        assert((((c as u32) - 32) as char) as u32 == (c as u32) - 32);
    }
}

/// `ascii_pascal_from` leaves no separator, and keeps ASCII text ASCII.
proof fn lemma_ascii_pascal_shape(s: Seq<char>, upper: bool)
    ensures
        forall|i: int| 0 <= i < ascii_pascal_from(s, upper).len() ==> !word_separator(#[trigger] ascii_pascal_from(s, upper)[i]),
        ascii_text(s) ==> ascii_text(ascii_pascal_from(s, upper)),
    decreases s.len(),
{
    if s.len() > 0 {
        let rest = s.drop_first();
        lemma_ascii_pascal_shape(rest, true);
        lemma_ascii_pascal_shape(rest, false);
        lemma_ascii_upper(s[0]);
        if ascii_text(s) {
            assert((s[0] as u32) < 128);
            assert(ascii_text(rest)) by {
                assert forall|i: int| 0 <= i < rest.len() implies (#[trigger] rest[i] as u32) < 128 by {
                    assert(rest[i] == s[i + 1]);
                }
            }
        }
        let r = ascii_pascal_from(s, upper);
        if !word_separator(s[0]) {
            let tail = ascii_pascal_from(rest, false);
            assert forall|i: int| 0 <= i < r.len() implies !word_separator(#[trigger] r[i]) by {
                if i > 0 {
                    assert(r[i] == tail[i - 1]);
                }
            }
            if ascii_text(s) {
                assert forall|i: int| 0 <= i < r.len() implies (#[trigger] r[i] as u32) < 128 by {
                    if i > 0 {
                        assert(r[i] == tail[i - 1]);
                    }
                }
            }
        }
    }
}

/// Text without separators is its own PascalCase once past the first character.
proof fn lemma_ascii_pascal_plain(t: Seq<char>)
    requires
        forall|i: int| 0 <= i < t.len() ==> !word_separator(#[trigger] t[i]),
    ensures
        ascii_pascal_from(t, false) == t,
    decreases t.len(),
{
    if t.len() > 0 {
        let rest = t.drop_first();
        assert forall|i: int| 0 <= i < rest.len() implies !word_separator(#[trigger] rest[i]) by {
            assert(rest[i] == t[i + 1]);
        }
        assert(!word_separator(t[0]));
        lemma_ascii_pascal_plain(rest);
        assert(ascii_pascal_from(t, false) =~= t);
    }
}

/// PascalCase of ASCII text is ASCII text that PascalCase leaves as it is:
/// `pascal_case` is idempotent on ASCII text.
pub proof fn law_ascii_pascal_idempotent(s: Seq<char>)
    requires
        ascii_text(s),
    ensures
        ascii_text(ascii_pascal(s)),
        ascii_pascal(ascii_pascal(s)) == ascii_pascal(s),
    decreases s.len(),
{
    lemma_ascii_pascal_shape(s, true);
    if s.len() > 0 {
        let rest = s.drop_first();
        assert(ascii_text(rest)) by {
            assert forall|i: int| 0 <= i < rest.len() implies (#[trigger] rest[i] as u32) < 128 by {
                assert(rest[i] == s[i + 1]);
            }
        }
        if word_separator(s[0]) {
            law_ascii_pascal_idempotent(rest);
        } else {
            let t = ascii_pascal(s);
            let tail = ascii_pascal_from(rest, false);
            lemma_ascii_pascal_shape(rest, false);
            lemma_ascii_pascal_plain(tail);
            lemma_ascii_upper(s[0]);
            assert(t == seq![ascii_upper(s[0])] + tail);
            assert(t.drop_first() =~= tail);
            assert(t[0] == ascii_upper(s[0]));
            assert(!word_separator(t[0]));
            assert(ascii_pascal(t) == seq![ascii_upper(t[0])] + ascii_pascal_from(t.drop_first(), false));
            assert(ascii_pascal(t) =~= t);
        }
    }
}

/// Every character of `s` is ASCII.
pub open spec fn ascii_text(s: Seq<char>) -> bool {
    forall|i: int| 0 <= i < s.len() ==> (#[trigger] s[i] as u32) < 128
}

/// Converts `s` to PascalCase: drops `_`, `-` and spaces, and upper-cases the
/// first character of the text and each character after a dropped one. On
/// ASCII text no separator is left in the result.
pub fn pascal_case(s: &str) -> (r: String)
    ensures
        r@ == pascal(s@),
        ascii_text(s@) ==> r@ == ascii_pascal(s@),
        ascii_text(s@) ==> forall|i: int| 0 <= i < r@.len() ==> !word_separator(#[trigger] r@[i]),
{
    let mut out = String::new();
    let mut upper = true;
    let n = s.unicode_len();
    let mut i: usize = 0;
    assert(s@.skip(0) =~= s@);
    while i < n
        invariant
            n == s@.len(),
            i <= n,
            out@ + pascal_from(s@.skip(i as int), upper) == pascal(s@),
            ascii_text(s@) ==> out@ + ascii_pascal_from(s@.skip(i as int), upper) == ascii_pascal(s@),
            ascii_text(s@) ==> forall|k: int| 0 <= k < out@.len() ==> !word_separator(#[trigger] out@[k]),
        decreases n - i,
    {
        let ch = s.get_char(i);
        let ghost rest = s@.skip(i as int);
        assert(rest[0] == ch);
        assert(rest.drop_first() =~= s@.skip(i + 1));
        if ch == '_' || ch == '-' || ch == ' ' {
            upper = true;
        } else if upper {
            let u = upper_case(ch);
            let ghost before = out@;
            out.append(u.as_str());
            proof {
                if ascii_text(s@) {
                    assert((s@[i as int] as u32) < 128);
                    assert forall|k: int| 0 <= k < out@.len() implies !word_separator(#[trigger] out@[k]) by {
                        if k >= before.len() {
                            assert(out@[k] == u@[k - before.len()]);
                            if 'a' <= ch <= 'z' {
                                let c2 = ((ch as u32) - 32) as char;
                                assert(65 <= (ch as u32) - 32 <= 90);
                                assert(c2 as u32 == (ch as u32) - 32);
                            }
                        }
                    }
                }
            }
            assert(before + pascal_from(rest, true) == before + (char_upper(ch) + pascal_from(s@.skip(i + 1), false)));
            proof {
                if ascii_text(s@) {
                    assert((s@[i as int] as u32) < 128);
                    assert(u@ == seq![ascii_upper(ch)]);
                    assert(out@ + ascii_pascal_from(s@.skip(i + 1), false) =~= before + (seq![ascii_upper(ch)] + ascii_pascal_from(s@.skip(i + 1), false)));
                }
            }
            assert(out@ + pascal_from(s@.skip(i + 1), false) =~= before + (char_upper(ch) + pascal_from(s@.skip(i + 1), false)));
            upper = false;
        } else {
            let ghost before = out@;
            push_char(&mut out, ch);
            assert(forall|k: int| 0 <= k < before.len() ==> out@[k] == before[k]);
            assert(out@[before.len() as int] == ch);
            assert(out@ + pascal_from(s@.skip(i + 1), false) =~= before + (seq![ch] + pascal_from(s@.skip(i + 1), false)));
            assert(out@ + ascii_pascal_from(s@.skip(i + 1), false) =~= before + (seq![ch] + ascii_pascal_from(s@.skip(i + 1), false)));
        }
        i = i + 1;
    }
    assert(s@.skip(n as int).len() == 0);
    assert(out@ =~= out@ + pascal_from(s@.skip(n as int), upper));
    assert(out@ =~= out@ + ascii_pascal_from(s@.skip(n as int), upper));
    out
}

/// The type that an argument value suggests: a variable's declared type (if
/// the variable is declared), the literal's scalar, or `JSON` for enums,
/// lists, objects and null.
pub open spec fn arg_type(value: ArgValue, var_types: Seq<(Seq<char>, TypeRefView)>) -> Option<TypeRefView> {
    match value {
        ArgValue::Variable(name) => lookup(var_types, name@),
        ArgValue::Boolean => Some(named_type("Boolean"@)),
        ArgValue::Int => Some(named_type("Int"@)),
        ArgValue::Float => Some(named_type("Float"@)),
        ArgValue::Str => Some(named_type("String"@)),
        _ => Some(named_type("JSON"@)),
    }
}

/// Guesses the type of an argument from its value.
pub fn infer_argument_type(value: &ArgValue, var_types: &NameMap<TypeRef>) -> (r: Option<TypeRef>)
    ensures
        match r {
            Some(t) => arg_type(*value, var_types@) == Some(t@),
            None => arg_type(*value, var_types@) is None,
        },
{
    match value {
        ArgValue::Variable(name) => match var_types.get(name.as_str()) {
            Some(t) => Some(t.duplicate()),
            None => None,
        },
        ArgValue::Boolean => Some(TypeRef::named("Boolean")),
        ArgValue::Int => Some(TypeRef::named("Int")),
        ArgValue::Float => Some(TypeRef::named("Float")),
        ArgValue::Str => Some(TypeRef::named("String")),
        _ => Some(TypeRef::named("JSON")),
    }
}

/// The type reference that a variable's declared type spells.
pub open spec fn var_type_ref(t: VarType) -> TypeRefView
    decreases t,
{
    match t {
        VarType::NamedType(n) => TypeRefView::Named(n@),
        VarType::ListType(inner) => TypeRefView::List(Box::new(var_type_ref(*inner))),
        VarType::NonNullType(inner) => TypeRefView::NonNull(Box::new(var_type_ref(*inner))),
    }
}

/// The GraphQL text of a declared variable type: `T`, `[T]` or `T!`.
pub open spec fn var_type_text(t: VarType) -> Seq<char>
    decreases t,
{
    match t {
        VarType::NamedType(n) => n@,
        VarType::ListType(inner) => "["@ + var_type_text(*inner) + "]"@,
        VarType::NonNullType(inner) => var_type_text(*inner) + "!"@,
    }
}

/// The type reference made from a declared variable type spells that type:
/// rendered, it is the declared type's GraphQL text, list brackets and `!`
/// included.
pub proof fn law_var_type_ref_spells(t: VarType)
    ensures
        type_ref_text(var_type_ref(t)) == var_type_text(t),
    decreases t,
{
    match t {
        VarType::NamedType(_) => {},
        VarType::ListType(inner) => law_var_type_ref_spells(*inner),
        VarType::NonNullType(inner) => law_var_type_ref_spells(*inner),
    }
}

/// The type reference that a variable's declared type spells.
pub fn type_ref_from_gql_type(ty: &VarType) -> (r: TypeRef)
    ensures
        r@ == var_type_ref(*ty),
        type_ref_text(r@) == var_type_text(*ty),
    decreases ty,
{
    proof {
        law_var_type_ref_spells(*ty);
    }
    match ty {
        VarType::NamedType(n) => TypeRef::Named(n.clone()),
        VarType::ListType(inner) => TypeRef::List(Box::new(type_ref_from_gql_type(inner))),
        VarType::NonNullType(inner) => TypeRef::NonNull(Box::new(type_ref_from_gql_type(inner))),
    }
}

/// Variable names and their declared types, the later declaration of a name winning.
pub open spec fn var_types_of(vars: Seq<VariableDefinition>) -> Seq<(Seq<char>, TypeRefView)>
    decreases vars.len(),
{
    if vars.len() == 0 {
        Seq::empty()
    } else {
        sorted_insert(var_types_of(vars.drop_last()), vars.last().name@, var_type_ref(vars.last().var_type))
    }
}

/// The declared type of each variable, by name.
pub fn var_type_map(vars: &Vec<VariableDefinition>) -> (r: NameMap<TypeRef>)
    ensures
        r@ == var_types_of(vars@),
{
    let mut out: NameMap<TypeRef> = NameMap::new();
    let mut i: usize = 0;
    while i < vars.len()
        invariant
            i <= vars@.len(),
            out@ == var_types_of(vars@.take(i as int)),
        decreases vars@.len() - i,
    {
        assert(vars@.take(i + 1).drop_last() =~= vars@.take(i as int));
        out.insert(vars[i].name.clone(), type_ref_from_gql_type(&vars[i].var_type));
        i = i + 1;
    }
    assert(vars@.take(vars@.len() as int) =~= vars@);
    out
}

/// The name at the core of a variable's declared type.
pub open spec fn base_name(t: VarType) -> Seq<char>
    decreases t,
{
    match t {
        VarType::NamedType(n) => n@,
        VarType::ListType(inner) => base_name(*inner),
        VarType::NonNullType(inner) => base_name(*inner),
    }
}

/// Input and scalar sets after meeting a variable of type `t`: a type that is
/// not a built-in scalar is taken for an input type, and brings in `JSON`.
pub open spec fn collect_var_type(t: VarType, inputs: NamesView, scalars: NamesView) -> (NamesView, NamesView) {
    if builtin_scalar(base_name(t)) {
        (inputs, scalars)
    } else {
        (sorted_insert(inputs, base_name(t), ()), sorted_insert(scalars, "JSON"@, ()))
    }
}

/// Wrappers do not change which input a variable type brings in: `[T]` and
/// `T!` collect what `T` does, and a named type that is not a built-in
/// scalar is recorded as an input (with `JSON` as a scalar), while a built-in
/// scalar changes nothing. So the named type at the core of any declared
/// type is among the inputs afterwards unless it is a built-in scalar.
pub proof fn law_collect_var_type(t: VarType, inputs: NamesView, scalars: NamesView)
    ensures
        collect_var_type(VarType::NonNullType(Box::new(t)), inputs, scalars) == collect_var_type(t, inputs, scalars),
        collect_var_type(VarType::ListType(Box::new(t)), inputs, scalars) == collect_var_type(t, inputs, scalars),
        t matches VarType::NamedType(n) ==> (builtin_scalar(n@) ==> collect_var_type(t, inputs, scalars) == (inputs, scalars)),
        t matches VarType::NamedType(n) ==> (!builtin_scalar(n@) ==> {
            &&& lookup(collect_var_type(t, inputs, scalars).0, n@) is Some
            &&& lookup(collect_var_type(t, inputs, scalars).1, "JSON"@) is Some
            &&& forall|k: Seq<char>| lookup(inputs, k) is Some ==> #[trigger] lookup(collect_var_type(t, inputs, scalars).0, k) is Some
        }),
{
    if let VarType::NamedType(n) = t {
        if !builtin_scalar(n@) {
            crate::name_map::lemma_lookup_sorted_insert(inputs, n@, (), n@);
            crate::name_map::lemma_lookup_sorted_insert(scalars, "JSON"@, (), "JSON"@);
            assert forall|k: Seq<char>| lookup(inputs, k) is Some implies #[trigger] lookup(collect_var_type(t, inputs, scalars).0, k) is Some by {
                crate::name_map::lemma_lookup_sorted_insert(inputs, n@, (), k);
            }
        }
    }
}

/// Records the named type at the core of a variable's type as an input type
/// (and `JSON` as a scalar), unless it is a built-in scalar.
pub fn collect_named_types_from_var_type(ty: &VarType, inputs: &mut NameSet, scalars: &mut NameSet)
    ensures
        (final(inputs)@, final(scalars)@) == collect_var_type(*ty, old(inputs)@, old(scalars)@),
    decreases ty,
{
    match ty {
        VarType::NamedType(name) => {
            if is_builtin_scalar(name.as_str()) {
                return;
            }
            inputs.insert(name.clone(), ());
            scalars.insert("JSON".to_owned(), ());
        },
        VarType::ListType(inner) => {
            collect_named_types_from_var_type(inner, inputs, scalars);
        },
        VarType::NonNullType(inner) => {
            collect_named_types_from_var_type(inner, inputs, scalars);
        },
    }
}

/// The draft after recording the variable types of an operation header.
pub open spec fn collect_inputs_spec(d: DraftView, vars: Seq<VariableDefinition>) -> DraftView
    decreases vars.len(),
{
    if vars.len() == 0 {
        d
    } else {
        let prev = collect_inputs_spec(d, vars.drop_last());
        let (inputs, scalars) = collect_var_type(vars.last().var_type, prev.inputs, prev.scalars);
        DraftView { inputs, scalars, ..prev }
    }
}

/// Records the input types (and `JSON`) that an operation's variables name.
pub fn collect_inputs_from_vars(draft: &mut SchemaDraft, vars: &Vec<VariableDefinition>)
    ensures
        final(draft)@ == collect_inputs_spec(old(draft)@, vars@),
{
    let mut i: usize = 0;
    while i < vars.len()
        invariant
            i <= vars@.len(),
            draft@ == collect_inputs_spec(old(draft)@, vars@.take(i as int)),
        decreases vars@.len() - i,
    {
        assert(vars@.take(i + 1).drop_last() =~= vars@.take(i as int));
        collect_named_types_from_var_type(&vars[i].var_type, &mut draft.inputs, &mut draft.scalars);
        i = i + 1;
    }
    assert(vars@.take(vars@.len() as int) =~= vars@);
}

} // verus!

//! Reading the text of a GraphQL operation document, with `graphql_parser`.
use vstd::prelude::*;

use graphql_parser::query as q;
use graphql_parser::query::ParseError;

use crate::document::{
    ArgValue, Definition, Document, FragmentDefinition, Field, InlineFragment, Operation, OperationDefinition,
    Selection, SelectionSet, VarType, VariableDefinition,
};

verus! {

#[verifier::external_type_specification]
#[verifier::external_body]
pub struct ExParseError(ParseError);

/// One of the whitespace characters above ASCII that `char::is_whitespace`
/// accepts.
pub open spec fn wide_space(c: char) -> bool {
    let n = c as u32;
    n == 0x85 || n == 0xA0 || n == 0x1680 || (0x2000 <= n && n <= 0x200A) || n == 0x2028 || n == 0x2029
        || n == 0x202F || n == 0x205F || n == 0x3000
}

/// Whitespace that `char::is_whitespace` accepts, other than a line break:
/// what the indent of a block string's line is made of.
pub open spec fn indent_space(c: char) -> bool {
    c == ' ' || c == '\t' || c == '\r' || c as u32 == 0x0B || c as u32 == 0x0C || wide_space(c)
}

/// Whether `c` is whitespace above ASCII.
fn is_wide_space(c: char) -> (r: bool)
    ensures
        r == wide_space(c),
{
    let k: u32 = c as u32;
    k == 0x85 || k == 0xA0 || k == 0x1680 || (0x2000 <= k && k <= 0x200A) || k == 0x2028 || k == 0x2029
        || k == 0x202F || k == 0x205F || k == 0x3000
}

/// Where `graphql_parser`'s tokenizer stands while it reads a text.
#[derive(Clone, Copy)]
pub enum Lex {
    /// Between tokens, or in a name, number or punctuator.
    Plain,
    /// In a `#` comment.
    Comment,
    /// In a string; whether the character before was an escaping `\`.
    Str(bool),
    /// In a block string whose content starts at the given position; whether
    /// the indent of a line after the first is being read, and whether such
    /// an indent has held whitespace above ASCII.
    Block(usize, bool, bool),
}

/// Whether, reading `t` from position `i` in state `st` as the tokenizer
/// does, a block string is closed one of whose lines after the first has
/// whitespace above ASCII in its indent. Reading stops where the tokenizer
/// fails: at a character above ASCII (other than U+FEFF) between tokens, at
/// a line break in a string, and at the end of the text inside a string or
/// block string. A block string's content ends at the first `"""` not
/// preceded by `\`, the search going on past an escaped one.
pub open spec fn hazard_from(t: Seq<char>, i: nat, st: Lex) -> bool
    decreases t.len() - i,
{
    if i >= t.len() {
        false
    } else {
        let c = t[i as int];
        let triple = i + 2 < t.len() && c == '"' && t[i + 1int] == '"' && t[i + 2int] == '"';
        match st {
            Lex::Plain => if c == '#' {
                hazard_from(t, i + 1, Lex::Comment)
            } else if triple {
                hazard_from(t, i + 3, Lex::Block((i + 3) as usize, false, false))
            } else if c == '"' {
                hazard_from(t, i + 1, Lex::Str(false))
            } else if c as u32 >= 128 && c as u32 != 0xFEFF {
                false
            } else {
                hazard_from(t, i + 1, Lex::Plain)
            },
            Lex::Comment => if c == '\n' || c == '\r' {
                hazard_from(t, i + 1, Lex::Plain)
            } else {
                hazard_from(t, i + 1, Lex::Comment)
            },
            Lex::Str(esc) => if c == '"' && !esc {
                hazard_from(t, i + 1, Lex::Plain)
            } else if c == '\n' {
                false
            } else {
                hazard_from(t, i + 1, Lex::Str(!esc && c == '\\'))
            },
            Lex::Block(s, ls, found) => if triple {
                if i > s && t[i - 1] == '\\' {
                    hazard_from(t, i + 3, Lex::Block(s, false, found))
                } else if found {
                    true
                } else {
                    hazard_from(t, i + 3, Lex::Plain)
                }
            } else if c == '\n' {
                hazard_from(t, i + 1, Lex::Block(s, true, found))
            } else {
                hazard_from(t, i + 1, Lex::Block(s, ls && indent_space(c), found || (ls && wide_space(c))))
            },
        }
    }
}

/// A text on which `graphql_parser` may cut a character in two. It strips
/// the common indent of a block string's lines after the first by byte
/// count, and where an indent holds whitespace above ASCII (several bytes
/// long) the cut can fall inside a character, where the parser panics. So a
/// text is refused where, read as the tokenizer reads it, it closes a block
/// string one of whose lines after the first has such whitespace in its
/// indent.
pub open spec fn indent_hazard(t: Seq<char>) -> bool {
    hazard_from(t, 0, Lex::Plain)
}

/// Whether `text` is one on which the parser may cut a character in two.
pub fn has_indent_hazard(text: &str) -> (r: bool)
    ensures
        r == indent_hazard(text@),
{
    let n = text.unicode_len();
    let mut st = Lex::Plain;
    let mut i: usize = 0;
    while i < n
        invariant
            n == text@.len(),
            i <= n,
            hazard_from(text@, i as nat, st) == indent_hazard(text@),
        decreases n - i,
    {
        let c = text.get_char(i);
        let triple = n > 2 && i < n - 2 && c == '"' && text.get_char(i + 1) == '"' && text.get_char(i + 2) == '"';
        let wide = is_wide_space(c);
        match st {
            Lex::Plain => {
                if c == '#' {
                    st = Lex::Comment;
                    i = i + 1;
                } else if triple {
                    st = Lex::Block(i + 3, false, false);
                    i = i + 3;
                } else if c == '"' {
                    st = Lex::Str(false);
                    i = i + 1;
                } else if c as u32 >= 128 && c as u32 != 0xFEFF {
                    return false;
                } else {
                    i = i + 1;
                }
            },
            Lex::Comment => {
                if c == '\n' || c == '\r' {
                    st = Lex::Plain;
                }
                i = i + 1;
            },
            Lex::Str(esc) => {
                if c == '"' && !esc {
                    st = Lex::Plain;
                } else if c == '\n' {
                    return false;
                } else {
                    st = Lex::Str(!esc && c == '\\');
                }
                i = i + 1;
            },
            Lex::Block(s, ls, found) => {
                if triple {
                    if i > s && text.get_char(i - 1) == '\\' {
                        st = Lex::Block(s, false, found);
                    } else if found {
                        return true;
                    } else {
                        st = Lex::Plain;
                    }
                    i = i + 3;
                } else if c == '\n' {
                    st = Lex::Block(s, true, found);
                    i = i + 1;
                } else {
                    let space = c == ' ' || c == '\t' || c == '\r' || c as u32 == 0x0B || c as u32 == 0x0C || wide;
                    st = Lex::Block(s, ls && space, found || (ls && wide));
                    i = i + 1;
                }
            },
        }
    }
    false
}

/// The document that `graphql_parser::parse_query` reads from `text`, in the
/// library's model, or `None` where the parser refuses the text.
pub uninterp spec fn parsed_document(text: Seq<char>) -> Option<Document>;

/// Calls `graphql_parser::parse_query` and turns its syntax tree into the
/// library's model, node for node (`Document::into_static` only drops the
/// borrow of the text). Claimed: the result is `parsed_document` of the text
/// (the parser reads the text alone), and an empty text is refused, since a
/// document needs at least one definition. Texts with a block string whose
/// indent holds whitespace above ASCII are left out, since the parser panics
/// on some of them (see `indent_hazard`).
#[verifier::external_body]
fn parse_query_text(text: &str) -> (r: Result<Document, ParseError>)
    requires
        !indent_hazard(text@),
    ensures
        r is Ok <==> parsed_document(text@) is Some,
        r matches Ok(d) ==> parsed_document(text@) == Some(d),
        text@.len() == 0 ==> r is Err,
{
    match graphql_parser::parse_query::<String>(text) {
        Ok(d) => {
            let d = d.into_static();
            Ok(Document { definitions: d.definitions.iter().map(|x| definition_of(DefinitionNode { node: x })).collect() })
        },
        Err(e) => Err(e),
    }
}

/// A definition of the parsed syntax tree, held out of Verus's sight (its
/// type is bound by `graphql_parser`'s trait `Text`, which Verus refuses).
#[verifier::external_body]
struct DefinitionNode<'a> {
    node: &'a q::Definition<'static, String>,
}

/// An operation definition of the parsed syntax tree.
#[verifier::external_body]
struct OperationNode<'a> {
    node: &'a q::OperationDefinition<'static, String>,
}

/// The variable definitions of an operation in the parsed syntax tree.
#[verifier::external_body]
struct VariablesNode<'a> {
    node: &'a Vec<q::VariableDefinition<'static, String>>,
}

/// A variable's type in the parsed syntax tree.
#[verifier::external_body]
struct TypeNode<'a> {
    node: &'a q::Type<'static, String>,
}

/// A selection set of the parsed syntax tree.
#[verifier::external_body]
struct SelectionSetNode<'a> {
    node: &'a q::SelectionSet<'static, String>,
}

/// A selection of the parsed syntax tree.
#[verifier::external_body]
struct SelectionNode<'a> {
    node: &'a q::Selection<'static, String>,
}

/// An argument value of the parsed syntax tree.
#[verifier::external_body]
struct ValueNode<'a> {
    node: &'a q::Value<'static, String>,
}

/// Part of the conversion in `parse_query_text`: a definition, variant for
/// variant (a fragment's type condition is its one variant `On`).
#[verifier::external_body]
fn definition_of(d: DefinitionNode) -> Definition {
    match d.node {
        q::Definition::Operation(op) => Definition::Operation(operation_of(OperationNode { node: op })),
        q::Definition::Fragment(f) => Definition::Fragment(FragmentDefinition {
            name: f.name.clone(),
            type_condition: match &f.type_condition { q::TypeCondition::On(n) => n.clone() },
            selection_set: selection_set_of(SelectionSetNode { node: &f.selection_set }),
        }),
    }
}

/// Part of the conversion in `parse_query_text`: an operation definition,
/// variant for variant.
#[verifier::external_body]
fn operation_of(op: OperationNode) -> OperationDefinition {
    match op.node {
        q::OperationDefinition::SelectionSet(ss) => OperationDefinition::SelectionSet(selection_set_of(SelectionSetNode { node: ss })),
        q::OperationDefinition::Query(o) => OperationDefinition::Query(operation_body(VariablesNode { node: &o.variable_definitions }, SelectionSetNode { node: &o.selection_set })),
        q::OperationDefinition::Mutation(o) => OperationDefinition::Mutation(operation_body(VariablesNode { node: &o.variable_definitions }, SelectionSetNode { node: &o.selection_set })),
        q::OperationDefinition::Subscription(o) => OperationDefinition::Subscription(operation_body(VariablesNode { node: &o.variable_definitions }, SelectionSetNode { node: &o.selection_set })),
    }
}

/// Part of the conversion in `parse_query_text`: an operation's variables
/// (name and type of each) and its selection set.
#[verifier::external_body]
fn operation_body(vars: VariablesNode, ss: SelectionSetNode) -> Operation {
    Operation {
        variable_definitions: vars.node.iter().map(|v| VariableDefinition { name: v.name.clone(), var_type: var_type_of(TypeNode { node: &v.var_type }) }).collect(),
        selection_set: selection_set_of(ss),
    }
}

/// Part of the conversion in `parse_query_text`: a variable's type, variant
/// for variant.
#[verifier::external_body]
fn var_type_of(t: TypeNode) -> VarType {
    match t.node {
        q::Type::NamedType(n) => VarType::NamedType(n.clone()),
        q::Type::ListType(inner) => VarType::ListType(Box::new(var_type_of(TypeNode { node: inner }))),
        q::Type::NonNullType(inner) => VarType::NonNullType(Box::new(var_type_of(TypeNode { node: inner }))),
    }
}

/// Part of the conversion in `parse_query_text`: a selection set, item for
/// item in source order.
#[verifier::external_body]
fn selection_set_of(ss: SelectionSetNode) -> SelectionSet {
    SelectionSet { items: ss.node.items.iter().map(|s| selection_of(SelectionNode { node: s })).collect() }
}

/// Part of the conversion in `parse_query_text`: a selection, variant for
/// variant (a field's name, arguments in order and sub-selections).
#[verifier::external_body]
fn selection_of(s: SelectionNode) -> Selection {
    match s.node {
        q::Selection::Field(f) => Selection::Field(Field {
            name: f.name.clone(),
            arguments: f.arguments.iter().map(|(n, v)| (n.clone(), value_of(ValueNode { node: v }))).collect(),
            selection_set: selection_set_of(SelectionSetNode { node: &f.selection_set }),
        }),
        q::Selection::FragmentSpread(sp) => Selection::FragmentSpread(sp.fragment_name.clone()),
        q::Selection::InlineFragment(i) => Selection::InlineFragment(InlineFragment {
            type_condition: i.type_condition.as_ref().map(|tc| match tc { q::TypeCondition::On(n) => n.clone() }),
            selection_set: selection_set_of(SelectionSetNode { node: &i.selection_set }),
        }),
    }
}

/// Part of the conversion in `parse_query_text`: an argument value, the
/// variable's name or the kind of literal.
#[verifier::external_body]
fn value_of(v: ValueNode) -> ArgValue {
    match v.node {
        q::Value::Variable(name) => ArgValue::Variable(name.clone()),
        q::Value::Boolean(_) => ArgValue::Boolean,
        q::Value::Int(_) => ArgValue::Int,
        q::Value::Float(_) => ArgValue::Float,
        q::Value::String(_) => ArgValue::Str,
        q::Value::Enum(_) => ArgValue::Enum,
        q::Value::List(_) => ArgValue::List,
        q::Value::Object(_) => ArgValue::Object,
        q::Value::Null => ArgValue::Null,
    }
}

/// The message of a parse error, as its `Display` writes it
/// (`query parse error: ...`). Its content is not stated.
#[verifier::external_body]
fn parse_error_text(e: &ParseError) -> String {
    e.to_string()
}

/// Why reading the documents failed.
#[derive(Debug)]
pub enum SchemaGenError {
    /// A document is not valid GraphQL: its source and the parser's message.
    Parse { source: String, message: String },
    /// A document holds a block string one of whose lines after the first has
    /// whitespace above ASCII in its indent, where the parser may cut a
    /// character in two (see `indent_hazard`): its source.
    BlockIndent { source: String },
    /// Fragments spread themselves, directly or through others, where the walk
    /// follows their spreads, so that expanding them would never end.
    CyclicFragments,
}

/// The message that a failure is reported with.
pub open spec fn error_text(e: SchemaGenError) -> Seq<char> {
    match e {
        SchemaGenError::Parse { source, message } => "parse error in "@ + source@ + ": "@ + message@,
        SchemaGenError::BlockIndent { source } => "unsupported block string indentation in "@ + source@,
        SchemaGenError::CyclicFragments => "fragment spreads form a cycle"@,
    }
}

impl SchemaGenError {
    /// `parse error in <source>: <message>`.
    pub fn message(&self) -> (r: String)
        ensures
            r@ == error_text(*self),
    {
        match self {
            SchemaGenError::Parse { source, message } => {
                let mut out = String::new();
                out.append("parse error in ");
                out.append(source.as_str());
                out.append(": ");
                out.append(message.as_str());
                out
            },
            SchemaGenError::BlockIndent { source } => {
                let mut out = String::new();
                out.append("unsupported block string indentation in ");
                out.append(source.as_str());
                out
            },
            SchemaGenError::CyclicFragments => String::from_str("fragment spreads form a cycle"),
        }
    }
}

/// Parses `text`, the content of the document named `source_name`, as a
/// GraphQL query document. A text with a block string whose indent holds
/// whitespace above ASCII (`indent_hazard`) is refused as `BlockIndent`
/// before it reaches the parser; a
/// text that does not parse is reported as a `Parse` error naming the source.
pub fn parse_document(source_name: &str, text: &str) -> (r: Result<Document, SchemaGenError>)
    ensures
        indent_hazard(text@) ==> (r matches Err(SchemaGenError::BlockIndent { source }) && source@ == source_name@),
        !indent_hazard(text@) ==> match r {
            Ok(d) => parsed_document(text@) == Some(d),
            Err(SchemaGenError::Parse { source, message }) => parsed_document(text@) is None && source@ == source_name@,
            Err(_) => false,
        },
        text@.len() == 0 ==> r is Err,
{
    if has_indent_hazard(text) {
        return Err(SchemaGenError::BlockIndent { source: source_name.to_owned() });
    }
    match parse_query_text(text) {
        Ok(doc) => Ok(doc),
        Err(e) => Err(SchemaGenError::Parse { source: source_name.to_owned(), message: parse_error_text(&e) }),
    }
}

} // verus!

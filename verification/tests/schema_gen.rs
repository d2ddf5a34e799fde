use copilot_money_cli::document::{
    ArgValue, Definition, Document, Field, FragmentDefinition, InlineFragment, Operation, OperationDefinition,
    Selection, SelectionSet, VarType, VariableDefinition,
};
use copilot_money_cli::name_map::NameMap;
use copilot_money_cli::schema_gen::{
    build_schema_draft, fragments_terminate, infer_leaf_scalar, is_builtin_scalar, parse_document, pascal_case,
    render_args, render_schema_from_documents, render_schema_from_texts, render_type_ref, SchemaDraft, SchemaGenError,
    TypeRef,
};

fn ss(items: Vec<Selection>) -> SelectionSet {
    SelectionSet { items }
}

fn leaf(name: &str) -> Selection {
    Selection::Field(Field { name: name.to_string(), arguments: vec![], selection_set: ss(vec![]) })
}

fn field(name: &str, arguments: Vec<(String, ArgValue)>, items: Vec<Selection>) -> Selection {
    Selection::Field(Field { name: name.to_string(), arguments, selection_set: ss(items) })
}

fn spread(name: &str) -> Selection {
    Selection::FragmentSpread(name.to_string())
}

fn inline(tc: Option<&str>, items: Vec<Selection>) -> Selection {
    Selection::InlineFragment(InlineFragment { type_condition: tc.map(|s| s.to_string()), selection_set: ss(items) })
}

fn fragment(name: &str, on: &str, items: Vec<Selection>) -> Definition {
    Definition::Fragment(FragmentDefinition {
        name: name.to_string(),
        type_condition: on.to_string(),
        selection_set: ss(items),
    })
}

fn var(name: &str, ty: VarType) -> VariableDefinition {
    VariableDefinition { name: name.to_string(), var_type: ty }
}

fn named(n: &str) -> VarType {
    VarType::NamedType(n.to_string())
}

fn non_null(t: VarType) -> VarType {
    VarType::NonNullType(Box::new(t))
}

fn query(vars: Vec<VariableDefinition>, items: Vec<Selection>) -> Definition {
    Definition::Operation(OperationDefinition::Query(Operation { variable_definitions: vars, selection_set: ss(items) }))
}

fn mutation(vars: Vec<VariableDefinition>, items: Vec<Selection>) -> Definition {
    Definition::Operation(OperationDefinition::Mutation(Operation {
        variable_definitions: vars,
        selection_set: ss(items),
    }))
}

fn render(names: &[&str], docs: Vec<Document>) -> String {
    assert!(fragments_terminate(&docs));
    let names: Vec<String> = names.iter().map(|s| s.to_string()).collect();
    render_schema_from_documents(&names, &docs)
}

#[test]
fn schema_contains_fragment_type_fields() {
    // query Q { thing { ...ThingFields } }
    // fragment ThingFields on Thing { id name }
    let doc = Document {
        definitions: vec![
            query(vec![], vec![field("thing", vec![], vec![spread("ThingFields")])]),
            fragment("ThingFields", "Thing", vec![leaf("id"), leaf("name")]),
        ],
    };
    let rendered = render(&["a.graphql"], vec![doc]);
    assert!(rendered.contains("type Thing"));
    assert!(rendered.contains("id: ID"));
    assert!(rendered.contains("name: String"));
}

#[test]
fn schema_renders_query_and_mutation() {
    // query Q($first: Int!, $after: String) { transactions(first: $first, after: $after) { edges { node { id } } } }
    let q = Document {
        definitions: vec![query(
            vec![var("first", non_null(named("Int"))), var("after", named("String"))],
            vec![field(
                "transactions",
                vec![
                    ("first".to_string(), ArgValue::Variable("first".to_string())),
                    ("after".to_string(), ArgValue::Variable("after".to_string())),
                ],
                vec![field("edges", vec![], vec![field("node", vec![], vec![leaf("id")])])],
            )],
        )],
    };
    // mutation M($id: ID!, $input: JSON) { deleteTag(id: $id) }
    let m = Document {
        definitions: vec![mutation(
            vec![var("id", non_null(named("ID"))), var("input", named("JSON"))],
            vec![field("deleteTag", vec![("id".to_string(), ArgValue::Variable("id".to_string()))], vec![])],
        )],
    };
    let out = render(&["q.graphql", "m.graphql"], vec![q, m]);
    assert!(out.contains("schema { query: Query mutation: Mutation }"));
    assert!(out.contains("type Query"));
    assert!(out.contains("type Mutation"));
    assert!(out.contains("deleteTag"));
}

#[test]
fn schema_includes_fragment_type_condition_fields() {
    // fragment IconFields on EmojiUnicode { __typename unicode }
    let doc = Document { definitions: vec![fragment("IconFields", "EmojiUnicode", vec![leaf("__typename"), leaf("unicode")])] };
    let out = render(&["f.graphql"], vec![doc]);
    assert!(out.contains("type EmojiUnicode"));
    assert!(out.contains("unicode"));
}

#[test]
fn schema_renders_exact_text_for_query_and_mutation() {
    let q = Document {
        definitions: vec![query(
            vec![var("first", non_null(named("Int"))), var("after", named("String"))],
            vec![field(
                "transactions",
                vec![
                    ("first".to_string(), ArgValue::Variable("first".to_string())),
                    ("after".to_string(), ArgValue::Variable("after".to_string())),
                ],
                vec![field("edges", vec![], vec![field("node", vec![], vec![leaf("id")])])],
            )],
        )],
    };
    let m = Document {
        definitions: vec![mutation(
            vec![var("id", non_null(named("ID"))), var("input", named("JSON"))],
            vec![field("deleteTag", vec![("id".to_string(), ArgValue::Variable("id".to_string()))], vec![])],
        )],
    };
    let out = render(&["q.graphql", "m.graphql"], vec![q, m]);
    let expected = "# Generated stub schema (best-effort)\n# Source docs:\n# - q.graphql\n# - m.graphql\n\n\
scalar JSON\n\n\
schema { query: Query mutation: Mutation }\n\n\
type Mutation {\n  deleteTag(id: ID!): JSON\n}\n\n\
type Query {\n  transactions(after: String, first: Int!): JSON\n}\n\n\
type QueryTransactions {\n  edges: QueryTransactionsEdges\n}\n\n\
type QueryTransactionsEdges {\n  node: QueryTransactionsEdgesNode\n}\n\n\
type QueryTransactionsEdgesNode {\n  id: ID!\n}\n\n\
input JSON {\n  _stub: JSON\n}\n\n";
    assert_eq!(out, expected);
}

#[test]
fn schema_without_mutation_fields_omits_mutation() {
    let doc = Document { definitions: vec![query(vec![], vec![leaf("isActive")])] };
    let out = render(&["x.graphql"], vec![doc]);
    assert!(out.contains("schema { query: Query }\n\n"));
    assert!(!out.contains("type Mutation"));
    assert!(out.contains("type Query {\n  isActive: Boolean\n}\n\n"));
}

#[test]
fn empty_object_gets_placeholder_field() {
    let doc = Document { definitions: vec![fragment("F", "Empty", vec![leaf("__typename")])] };
    let out = render(&["e.graphql"], vec![doc]);
    assert!(out.contains("type Empty {\n  _placeholder: JSON\n}\n\n"));
}

#[test]
fn inline_fragments_make_a_union() {
    // query { node { ... on Tag { name } ... on Category { colorName } } }
    let doc = Document {
        definitions: vec![query(
            vec![],
            vec![field(
                "node",
                vec![],
                vec![inline(Some("Tag"), vec![leaf("name")]), inline(Some("Category"), vec![leaf("colorName")])],
            )],
        )],
    };
    let out = render(&["u.graphql"], vec![doc]);
    assert!(out.contains("union QueryNodeUnion = Category | Tag\n\n"));
    assert!(out.contains("type Query {\n  node: QueryNodeUnion\n}\n\n"));
    assert!(out.contains("type Tag {\n  name: String\n}\n\n"));
    assert!(out.contains("type Category {\n  colorName: String\n}\n\n"));
}

#[test]
fn literal_arguments_and_conflicting_types() {
    let doc = Document {
        definitions: vec![
            query(
                vec![],
                vec![
                    field(
                        "accounts",
                        vec![
                            ("limit".to_string(), ArgValue::Int),
                            ("ratio".to_string(), ArgValue::Float),
                            ("flag".to_string(), ArgValue::Boolean),
                            ("q".to_string(), ArgValue::Str),
                            ("kind".to_string(), ArgValue::Enum),
                            ("missing".to_string(), ArgValue::Variable("nope".to_string())),
                        ],
                        vec![],
                    ),
                    leaf("accountId"),
                ],
            ),
            query(vec![], vec![field("accountId", vec![], vec![leaf("x")])]),
        ],
    };
    let draft = build_schema_draft(&doc_list(doc));
    let fields = draft.objects.get("Query").unwrap();
    let accounts = fields.get("accounts").unwrap();
    assert_eq!(accounts.ty, TypeRef::named("JSON"));
    assert_eq!(render_args(&accounts.args), "(flag: Boolean, kind: JSON, limit: Int, q: String, ratio: Float)");
    // accountId was first a leaf of type ID, then an object: the types differ, so JSON.
    assert_eq!(fields.get("accountId").unwrap().ty, TypeRef::named("JSON"));
}

fn doc_list(d: Document) -> Vec<Document> {
    vec![d]
}

#[test]
fn later_fragment_definition_wins() {
    let doc = Document {
        definitions: vec![
            query(vec![], vec![field("a", vec![], vec![spread("F")])]),
            fragment("F", "First", vec![leaf("one")]),
            fragment("F", "Second", vec![leaf("two")]),
        ],
    };
    let out = render(&["w.graphql"], vec![doc]);
    assert!(out.contains("type Query {\n  a: Second\n}\n\n"));
    assert!(!out.contains("type First"));
}

#[test]
fn cyclic_fragments_are_detected() {
    let cyclic = Document {
        definitions: vec![fragment("A", "T", vec![spread("B")]), fragment("B", "T", vec![field("x", vec![], vec![spread("A")])])],
    };
    assert!(!fragments_terminate(&vec![cyclic]));
    let own = Document { definitions: vec![fragment("A", "T", vec![inline(None, vec![spread("A")])])] };
    assert!(!fragments_terminate(&vec![own]));
    let chain = Document {
        definitions: vec![
            fragment("A", "T", vec![spread("B")]),
            fragment("B", "T", vec![spread("C")]),
            fragment("C", "T", vec![leaf("id"), spread("Unknown")]),
        ],
    };
    assert!(fragments_terminate(&vec![chain]));
}

#[test]
fn leaf_scalars_follow_field_names() {
    assert_eq!(render_type_ref(&infer_leaf_scalar("id")), "ID!");
    assert_eq!(render_type_ref(&infer_leaf_scalar("cursor")), "String!");
    assert_eq!(render_type_ref(&infer_leaf_scalar("accountId")), "ID");
    assert_eq!(render_type_ref(&infer_leaf_scalar("itemID")), "ID");
    assert_eq!(render_type_ref(&infer_leaf_scalar("name")), "String");
    assert_eq!(render_type_ref(&infer_leaf_scalar("displayName")), "String");
    assert_eq!(render_type_ref(&infer_leaf_scalar("date")), "String");
    assert_eq!(render_type_ref(&infer_leaf_scalar("startDate")), "String");
    assert_eq!(render_type_ref(&infer_leaf_scalar("month")), "String");
    assert_eq!(render_type_ref(&infer_leaf_scalar("isExcluded")), "Boolean");
    assert_eq!(render_type_ref(&infer_leaf_scalar("amount")), "JSON");
    assert_eq!(render_type_ref(&infer_leaf_scalar("")), "JSON");
}

#[test]
fn builtin_scalars() {
    for s in ["String", "Int", "Float", "Boolean", "ID"] {
        assert!(is_builtin_scalar(s));
    }
    assert!(!is_builtin_scalar("JSON"));
    assert!(!is_builtin_scalar("string"));
}

#[test]
fn pascal_case_words() {
    assert_eq!(pascal_case("transactions"), "Transactions");
    assert_eq!(pascal_case("foo_bar-baz qux"), "FooBarBazQux");
    assert_eq!(pascal_case("__a__b"), "AB");
    assert_eq!(pascal_case("already"), "Already");
    assert_eq!(pascal_case("ab"), "Ab");
    assert_eq!(pascal_case(""), "");
    assert_eq!(pascal_case("ß"), "SS");
}

#[test]
fn type_refs_render() {
    let t = TypeRef::NonNull(Box::new(TypeRef::List(Box::new(TypeRef::named("Tag")))));
    assert_eq!(render_type_ref(&t), "[Tag]!");
    assert_eq!(t.clone(), t);
    assert_ne!(t, TypeRef::named("Tag"));
}

#[test]
fn add_field_records_and_conflicts() {
    let mut d = SchemaDraft::new();
    d.add_field("Query", "a", TypeRef::named("Int"));
    d.add_field("Query", "a", TypeRef::named("Int"));
    assert_eq!(d.objects.get("Query").unwrap().get("a").unwrap().ty, TypeRef::named("Int"));
    d.add_field("Query", "a", TypeRef::named("String"));
    assert_eq!(d.objects.get("Query").unwrap().get("a").unwrap().ty, TypeRef::named("JSON"));
    d.add_field("Query", "a", TypeRef::named("Int"));
    assert_eq!(d.objects.get("Query").unwrap().get("a").unwrap().ty, TypeRef::named("JSON"));
}

#[test]
fn add_field_commutes() {
    let mut d1 = SchemaDraft::new();
    d1.add_field("T", "f", TypeRef::named("A"));
    d1.add_field("T", "f", TypeRef::named("B"));
    let mut d2 = SchemaDraft::new();
    d2.add_field("T", "f", TypeRef::named("B"));
    d2.add_field("T", "f", TypeRef::named("A"));
    let names = vec!["s".to_string()];
    assert_eq!(copilot_money_cli::render::render_schema(&d1, &names), copilot_money_cli::render::render_schema(&d2, &names));
}

#[test]
fn argument_before_field_makes_json() {
    let mut d = SchemaDraft::new();
    d.add_field_arg("Mutation", "deleteTag", "id", TypeRef::named("ID"));
    d.add_field_arg("Mutation", "deleteTag", "id", TypeRef::named("ID"));
    d.add_field("Mutation", "deleteTag", TypeRef::named("Boolean"));
    let f = d.objects.get("Mutation").unwrap().get("deleteTag").unwrap();
    assert_eq!(f.ty, TypeRef::named("JSON"));
    assert_eq!(render_args(&f.args), "(id: ID)");
    d.add_field_arg("Mutation", "deleteTag", "id", TypeRef::named("String"));
    let f = d.objects.get("Mutation").unwrap().get("deleteTag").unwrap();
    assert_eq!(render_args(&f.args), "(id: JSON)");
}

#[test]
fn ensure_object_is_idempotent() {
    let mut d = SchemaDraft::new();
    d.ensure_object("Query");
    d.add_field("Query", "x", TypeRef::named("Int"));
    d.ensure_object("Query");
    assert_eq!(d.objects.len(), 1);
    assert_eq!(d.objects.get("Query").unwrap().len(), 1);
}

#[test]
fn names_are_kept_in_byte_order() {
    let mut m: NameMap<()> = NameMap::new();
    m.insert("b".to_string(), ());
    m.insert("a".to_string(), ());
    m.insert("B".to_string(), ());
    m.insert("a".to_string(), ());
    assert_eq!(m.len(), 3);
    assert_eq!(m.key_at(0), "B");
    assert_eq!(m.key_at(1), "a");
    assert_eq!(m.key_at(2), "b");
    assert!(m.contains_key("a"));
    assert!(!m.contains_key("c"));
}

#[test]
fn parse_document_reports_failures() {
    assert!(parse_document("ok.graphql", "query Q { a }").is_ok());
    match parse_document("bad.graphql", "query Q {") {
        Err(e) => {
            match &e {
                SchemaGenError::Parse { source, .. } => assert_eq!(source, "bad.graphql"),
                _ => panic!("expected a parse error"),
            }
            assert!(e.message().starts_with("parse error in bad.graphql: "));
        }
        Ok(_) => panic!("expected a parse error"),
    }
    assert!(parse_document("empty.graphql", "").is_err());
}

#[test]
fn add_field_arg_commutes() {
    let mut d1 = SchemaDraft::new();
    d1.add_field_arg("T", "f", "a", TypeRef::named("Int"));
    d1.add_field_arg("T", "f", "a", TypeRef::named("String"));
    let mut d2 = SchemaDraft::new();
    d2.add_field_arg("T", "f", "a", TypeRef::named("String"));
    d2.add_field_arg("T", "f", "a", TypeRef::named("Int"));
    let a1 = render_args(&d1.objects.get("T").unwrap().get("f").unwrap().args);
    let a2 = render_args(&d2.objects.get("T").unwrap().get("f").unwrap().args);
    assert_eq!(a1, "(a: JSON)");
    assert_eq!(a1, a2);
}

#[test]
fn no_documents_still_have_query_root() {
    let out = render(&[], vec![]);
    assert_eq!(
        out,
        "# Generated stub schema (best-effort)\n# Source docs:\n\nscalar JSON\n\nschema { query: Query }\n\ntype Query {\n  _placeholder: JSON\n}\n\n"
    );
}

#[test]
fn field_defs_clone_with_their_arguments() {
    let mut d = SchemaDraft::default();
    d.add_field_arg("T", "f", "a", TypeRef::named("Int"));
    let f = d.objects.get("T").unwrap().get("f").unwrap().clone();
    assert_eq!(f.name, "f");
    assert_eq!(f.ty, TypeRef::named("JSON"));
    assert_eq!(render_args(&f.args), "(a: Int)");
}

fn texts(pairs: &[(&str, &str)]) -> Vec<(String, String)> {
    pairs.iter().map(|(n, t)| (n.to_string(), t.to_string())).collect()
}

#[test]
fn texts_schema_contains_fragment_type_fields() {
    let out = render_schema_from_texts(&texts(&[(
        "a.graphql",
        "\nquery Q { thing { ...ThingFields } }\nfragment ThingFields on Thing { id name }\n",
    )]))
    .unwrap();
    assert!(out.contains("type Thing"));
    assert!(out.contains("id: ID"));
    assert!(out.contains("name: String"));
}

#[test]
fn texts_schema_renders_query_and_mutation() {
    let out = render_schema_from_texts(&texts(&[
        (
            "q.graphql",
            "query Q($first: Int!, $after: String) { transactions(first: $first, after: $after) { edges { node { id } } } }",
        ),
        ("m.graphql", "mutation M($id: ID!, $input: JSON) { deleteTag(id: $id) }"),
    ]))
    .unwrap();
    assert!(out.contains("schema { query: Query mutation: Mutation }"));
    assert!(out.contains("type Query"));
    assert!(out.contains("type Mutation"));
    assert!(out.contains("deleteTag"));
    assert!(out.contains("# - q.graphql"));
}

#[test]
fn texts_schema_includes_fragment_type_condition_fields() {
    let out = render_schema_from_texts(&texts(&[(
        "f.graphql",
        "fragment IconFields on EmojiUnicode { __typename unicode }",
    )]))
    .unwrap();
    assert!(out.contains("type EmojiUnicode"));
    assert!(out.contains("unicode"));
    assert!(!out.contains("__typename"));
}

#[test]
fn parse_document_builds_the_model() {
    let d = parse_document("x.graphql", "query Q($id: ID!) { a(x: $id, n: 3) { ...F ... on T { b } } }").unwrap();
    assert_eq!(d.definitions.len(), 1);
    match &d.definitions[0] {
        Definition::Operation(OperationDefinition::Query(op)) => {
            assert_eq!(op.variable_definitions.len(), 1);
            assert_eq!(op.variable_definitions[0].name, "id");
            match &op.variable_definitions[0].var_type {
                VarType::NonNullType(inner) => assert!(matches!(&**inner, VarType::NamedType(n) if n == "ID")),
                _ => panic!("expected ID!"),
            }
            assert_eq!(op.selection_set.items.len(), 1);
            match &op.selection_set.items[0] {
                Selection::Field(f) => {
                    assert_eq!(f.name, "a");
                    assert_eq!(f.arguments.len(), 2);
                    assert!(matches!(&f.arguments[0], (n, ArgValue::Variable(v)) if n == "x" && v == "id"));
                    assert!(matches!(&f.arguments[1], (n, ArgValue::Int) if n == "n"));
                    assert!(matches!(&f.selection_set.items[0], Selection::FragmentSpread(n) if n == "F"));
                    assert!(matches!(&f.selection_set.items[1],
                        Selection::InlineFragment(i) if i.type_condition.as_deref() == Some("T")));
                }
                _ => panic!("expected a field"),
            }
        }
        _ => panic!("expected a query"),
    }
}

#[test]
fn block_string_with_wide_indent_is_refused() {
    let text = "query Q { a(s: \"\"\"\n  x\n\u{3000}y\n\"\"\") }";
    match parse_document("w.graphql", text) {
        Err(SchemaGenError::BlockIndent { source }) => assert_eq!(source, "w.graphql"),
        _ => panic!("expected the block string to be refused"),
    }
    // Plain block strings and wide spaces apart from them still parse.
    assert!(parse_document("b.graphql", "query Q { a(s: \"\"\"\n  x\n  y\n\"\"\") }").is_ok());
    assert!(parse_document("c.graphql", "query Q { a(s: \"\u{3000}\") }").is_ok());
    // Whitespace above ASCII outside a block string's indents is no hazard.
    assert!(parse_document("d.graphql", "query Q { f(a: \"\"\"x\"\"\") }\n# \u{3000} comment\n").is_ok());
    assert!(parse_document("e.graphql", "query Q { a(s: \"\"\"\u{3000}x\n  y \u{3000}z\"\"\") }").is_ok());
    assert!(parse_document("f.graphql", "# \"\"\"\nquery Q { a(s: \"\u{3000}\") }").is_ok());
}

#[test]
fn later_parse_error_is_reported_after_a_block_string() {
    match render_schema_from_texts(&texts(&[
        ("first.graphql", "query Q { f(a: \"\"\"x\"\"\") }\n# \u{3000} comment\n"),
        ("later.graphql", "query {"),
    ])) {
        Err(e) => assert!(e.message().starts_with("parse error in later.graphql: ")),
        Ok(_) => panic!("expected a parse error"),
    }
}

#[test]
fn texts_report_first_failure_and_cycles() {
    match render_schema_from_texts(&texts(&[("ok.graphql", "query Q { a }"), ("bad.graphql", "query {"), ("worse.graphql", "")])) {
        Err(SchemaGenError::Parse { source, .. }) => assert_eq!(source, "bad.graphql"),
        _ => panic!("expected a parse error"),
    }
    match render_schema_from_texts(&texts(&[("c.graphql", "query Q { a { ...F } }\nfragment F on A { b { ...F } }")])) {
        Err(SchemaGenError::CyclicFragments) => {}
        _ => panic!("expected the cycle to be refused"),
    }
}

#[test]
fn pascal_case_is_idempotent_on_ascii() {
    for s in ["budget_month", "already Pascal", "x-y_z w", "", "__", "Name"] {
        let once = pascal_case(s);
        assert_eq!(pascal_case(&once), once);
    }
    assert_eq!(pascal_case("set_budget-now ok"), "SetBudgetNowOk");
}

#[test]
fn drafts_keep_lists_in_order() {
    let mut d = SchemaDraft::new();
    d.add_field_arg("T", "f", "b", TypeRef::named("Int"));
    d.add_field_arg("T", "f", "a", TypeRef::named("Int"));
    d.add_field("S", "g", TypeRef::named("ID"));
    d.lists_in_order();
    let fields = d.objects.get("T").unwrap();
    let f = fields.get("f").unwrap();
    assert_eq!(f.args.key_at(0), "a");
    assert_eq!(f.args.key_at(1), "b");
}

#[test]
fn typename_is_never_a_field() {
    let out = render_schema_from_texts(&texts(&[(
        "t.graphql",
        "query Q { __typename a { __typename b ... on X { __typename c } } }\nfragment F on Y { __typename d }",
    )]))
    .unwrap();
    assert!(!out.contains("__typename"));
    assert!(out.contains("type X"));
}

#[test]
fn spreads_under_a_union_field_are_not_followed() {
    let srcs = texts(&[("u.graphql", "fragment F on T { u { ... on A { x } y { ...F } } }")]);
    let out = render_schema_from_texts(&srcs).unwrap();
    assert!(out.contains("union TUUnion = A"));
    assert!(out.contains("type A"));
    let doc = parse_document("u.graphql", "fragment F on T { u { ... on A { x } y { ...F } } }").unwrap();
    assert!(fragments_terminate(&vec![doc]));
}

use graphql_field_timer::ast::{
    Argument, Definition, Document, Field, FragmentDefinition, FragmentSpread, InlineFragment,
    Query, Selection,
};
use graphql_field_timer::flatten::{parse_document, FlattenError};

fn leaf(name: &str) -> Selection {
    Selection::Field(Field {
        alias: None,
        name: name.to_string(),
        arguments: vec![],
        directives: vec![],
        selection_set: vec![],
    })
}

fn field(name: &str, children: Vec<Selection>) -> Selection {
    Selection::Field(Field {
        alias: None,
        name: name.to_string(),
        arguments: vec![],
        directives: vec![],
        selection_set: children,
    })
}

fn query_doc(selection_set: Vec<Selection>) -> Document {
    Document {
        definitions: vec![Definition::Query(Query {
            name: None,
            variable_definitions: vec![],
            directives: vec![],
            selection_set,
        })],
    }
}

/// Re-prints a query text through the grammar, as the flattener does.
fn reprint(s: &str) -> String {
    format!("{}", graphql_parser::parse_query::<String>(s).unwrap())
}

#[test]
fn single_leaf_yields_one_query() {
    let doc = query_doc(vec![leaf("hero")]);
    let queries = parse_document(&doc).unwrap();
    assert_eq!(queries.len(), 1);
    assert_eq!(queries[0], reprint("query { hero }"));
}

#[test]
fn two_leaves_yield_two_queries_in_document_order() {
    let doc = query_doc(vec![field("user", vec![leaf("name"), leaf("age")])]);
    let queries = parse_document(&doc).unwrap();
    assert_eq!(queries.len(), 2);
    assert_eq!(queries[0], reprint("query { user { name } }"));
    assert_eq!(queries[1], reprint("query { user { age } }"));
}

#[test]
fn leaf_count_without_fragments() {
    let doc = query_doc(vec![
        field("a", vec![leaf("b"), leaf("c")]),
        leaf("d"),
        field("e", vec![field("f", vec![leaf("g")])]),
    ]);
    let queries = parse_document(&doc).unwrap();
    assert_eq!(queries.len(), 4);
}

#[test]
fn every_query_reparses_with_a_single_leaf() {
    let doc = query_doc(vec![
        field("a", vec![leaf("b"), leaf("c")]),
        leaf("d"),
    ]);
    let queries = parse_document(&doc).unwrap();
    for q in &queries {
        let parsed = graphql_parser::parse_query::<String>(q).unwrap();
        // Canonical output round-trips to itself.
        assert_eq!(format!("{}", parsed), *q);
        // Exactly one leaf survives in each standalone query.
        let mut text = q.clone();
        text.retain(|c| !c.is_whitespace());
        assert_eq!(text.matches('{').count(), text.matches('}').count());
    }
}

#[test]
fn empty_operation_yields_no_queries() {
    let doc = query_doc(vec![]);
    let queries = parse_document(&doc).unwrap();
    assert!(queries.is_empty());
}

#[test]
fn fragment_spread_is_inlined_at_spread_site() {
    let doc = Document {
        definitions: vec![
            Definition::Query(Query {
                name: None,
                variable_definitions: vec![],
                directives: vec![],
                selection_set: vec![field(
                    "a",
                    vec![Selection::FragmentSpread(FragmentSpread {
                        fragment_name: "F".to_string(),
                    })],
                )],
            }),
            Definition::Fragment(FragmentDefinition {
                name: "F".to_string(),
                type_condition: "A".to_string(),
                directives: vec![],
                selection_set: vec![leaf("b"), leaf("c")],
            }),
        ],
    };
    let queries = parse_document(&doc).unwrap();
    assert_eq!(queries.len(), 2);
    assert_eq!(queries[0], reprint("query { a { ... on A { b } } }"));
    assert_eq!(queries[1], reprint("query { a { ... on A { c } } }"));
}

#[test]
fn unknown_fragment_fails_before_anything_else() {
    let doc = query_doc(vec![field(
        "a",
        vec![Selection::FragmentSpread(FragmentSpread {
            fragment_name: "F".to_string(),
        })],
    )]);
    match parse_document(&doc) {
        Err(FlattenError::FragmentNotFound(name)) => assert_eq!(name, "F"),
        other => panic!("expected a fragment-not-found error, got {:?}", other.is_ok()),
    }
}

#[test]
fn cyclic_fragment_fails() {
    let doc = Document {
        definitions: vec![
            Definition::Query(Query {
                name: None,
                variable_definitions: vec![],
                directives: vec![],
                selection_set: vec![Selection::FragmentSpread(FragmentSpread {
                    fragment_name: "F".to_string(),
                })],
            }),
            Definition::Fragment(FragmentDefinition {
                name: "F".to_string(),
                type_condition: "A".to_string(),
                directives: vec![],
                selection_set: vec![
                    leaf("x"),
                    Selection::FragmentSpread(FragmentSpread {
                        fragment_name: "F".to_string(),
                    }),
                ],
            }),
        ],
    };
    match parse_document(&doc) {
        Err(FlattenError::FragmentCycle(name)) => assert_eq!(name, "F"),
        other => panic!("expected a fragment-cycle error, got {:?}", other.is_ok()),
    }
}

#[test]
fn later_fragment_definition_shadows_earlier() {
    let frag = |names: Vec<&str>| FragmentDefinition {
        name: "F".to_string(),
        type_condition: "A".to_string(),
        directives: vec![],
        selection_set: names.into_iter().map(leaf).collect(),
    };
    let doc = Document {
        definitions: vec![
            Definition::Fragment(frag(vec!["old"])),
            Definition::Query(Query {
                name: None,
                variable_definitions: vec![],
                directives: vec![],
                selection_set: vec![Selection::FragmentSpread(FragmentSpread {
                    fragment_name: "F".to_string(),
                })],
            }),
            Definition::Fragment(frag(vec!["new"])),
        ],
    };
    let queries = parse_document(&doc).unwrap();
    assert_eq!(queries.len(), 1);
    assert_eq!(queries[0], reprint("query { ... on A { new } }"));
}

#[test]
fn alias_arguments_and_directives_are_preserved() {
    let doc = query_doc(vec![Selection::Field(Field {
        alias: Some("x".to_string()),
        name: "user".to_string(),
        arguments: vec![
            Argument {
                name: "id".to_string(),
                value: "4".to_string(),
            },
            Argument {
                name: "kind".to_string(),
                value: "\"admin\"".to_string(),
            },
        ],
        directives: vec!["@cached".to_string()],
        selection_set: vec![],
    })]);
    let queries = parse_document(&doc).unwrap();
    assert_eq!(queries.len(), 1);
    assert_eq!(
        queries[0],
        reprint("query { x: user(id: 4, kind: \"admin\") @cached }")
    );
}

#[test]
fn variable_definitions_render_only_at_the_root() {
    let doc = Document {
        definitions: vec![Definition::Query(Query {
            name: Some("Q".to_string()),
            variable_definitions: vec!["$id: ID!".to_string()],
            directives: vec![],
            selection_set: vec![Selection::Field(Field {
                alias: None,
                name: "user".to_string(),
                arguments: vec![Argument {
                    name: "id".to_string(),
                    value: "$id".to_string(),
                }],
                directives: vec![],
                selection_set: vec![],
            })],
        })],
    };
    let queries = parse_document(&doc).unwrap();
    assert_eq!(queries.len(), 1);
    assert_eq!(queries[0], reprint("query Q($id: ID!) { user(id: $id) }"));
}

#[test]
fn inline_fragment_with_type_condition() {
    let doc = query_doc(vec![Selection::InlineFragment(InlineFragment {
        type_condition: Some("Droid".to_string()),
        directives: vec![],
        selection_set: vec![leaf("primaryFunction")],
    })]);
    let queries = parse_document(&doc).unwrap();
    assert_eq!(queries.len(), 1);
    assert_eq!(queries[0], reprint("query { ... on Droid { primaryFunction } }"));
}

#[test]
fn inline_fragment_without_type_condition() {
    let doc = query_doc(vec![Selection::InlineFragment(InlineFragment {
        type_condition: None,
        directives: vec![],
        selection_set: vec![leaf("b")],
    })]);
    let queries = parse_document(&doc).unwrap();
    assert_eq!(queries.len(), 1);
    assert_eq!(queries[0], reprint("query { ... { b } }"));
}

#[test]
fn multiple_operations_flatten_in_order() {
    let op = |name: &str, sels: Vec<Selection>| {
        Definition::Query(Query {
            name: Some(name.to_string()),
            variable_definitions: vec![],
            directives: vec![],
            selection_set: sels,
        })
    };
    let doc = Document {
        definitions: vec![op("A", vec![leaf("a")]), op("B", vec![leaf("b")])],
    };
    let queries = parse_document(&doc).unwrap();
    assert_eq!(queries.len(), 2);
    assert_eq!(queries[0], reprint("query A { a }"));
    assert_eq!(queries[1], reprint("query B { b }"));
}

#[test]
fn error_messages_name_the_fragment() {
    let err = FlattenError::FragmentNotFound("Missing".to_string());
    assert_eq!(err.message(), "cannot find fragment with name Missing");
    let err = FlattenError::FragmentCycle("Loop".to_string());
    assert_eq!(err.message(), "fragment expansion cycles through Loop");
}

#[test]
fn fragment_resolves_fresh_at_every_spread_site() {
    let spread = || {
        Selection::FragmentSpread(FragmentSpread {
            fragment_name: "F".to_string(),
        })
    };
    let doc = Document {
        definitions: vec![
            Definition::Query(Query {
                name: None,
                variable_definitions: vec![],
                directives: vec![],
                selection_set: vec![field("a", vec![spread()]), field("b", vec![spread()])],
            }),
            Definition::Fragment(FragmentDefinition {
                name: "F".to_string(),
                type_condition: "T".to_string(),
                directives: vec![],
                selection_set: vec![leaf("x")],
            }),
        ],
    };
    let queries = parse_document(&doc).unwrap();
    assert_eq!(queries.len(), 2);
    assert_eq!(queries[0], reprint("query { a { ... on T { x } } }"));
    assert_eq!(queries[1], reprint("query { b { ... on T { x } } }"));
}

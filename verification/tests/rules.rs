use graphql_engine::ast::{
    get_argument_value, get_directive, get_fragment, get_response_key, include_selection,
    skip_selection, Directive, Document, Field, FragmentDefinition, FragmentSpread, Operation,
    OperationDefinition, Selection, SelectionSet,
};
use graphql_engine::coercion::{coerce_enum_value, coerce_scalar_value, coerce_value};
use graphql_engine::error::{ExecutionError, GraphQLError};
use graphql_engine::execution::{set_argument, Execution};
use graphql_engine::nesting::nests_within;
use graphql_engine::position::Position;
use graphql_engine::query::{get_operation, QueryResult};
use graphql_engine::resolver::Resolver;
use graphql_engine::schema::{
    field_definition_eq, get_argument_definitions, get_field_type, get_named_type,
    get_root_query_type, get_type_name, object_type_eq, type_eq, EnumType, FieldDefinition,
    InputObjectType, InputValue, ObjectType, ScalarType, SchemaDocument, Type, TypeDefinition,
};
use graphql_engine::subscription::{
    execute_subscription, Subscription, SubscriptionExecutionOptions, SubscriptionResult,
};
use graphql_engine::util::{clone_names, contains_name, strings_eq, text_is};
use graphql_engine::value::{clone_entries, value_eq, Value};
use std::sync::Arc;

fn pos(line: usize, column: usize) -> Position {
    Position::new(line, column)
}

fn named(name: &str) -> Type {
    Type::NamedType(name.to_string())
}

fn non_null(inner: Type) -> Type {
    Type::NonNullType(Box::new(inner))
}

fn list(inner: Type) -> Type {
    Type::ListType(Box::new(inner))
}

fn text(s: &str) -> Value {
    Value::String(s.to_string())
}

fn builtin_schema() -> SchemaDocument {
    SchemaDocument {
        definitions: vec![
            TypeDefinition::Scalar(ScalarType { name: "Boolean".to_string() }),
            TypeDefinition::Scalar(ScalarType { name: "Float".to_string() }),
            TypeDefinition::Scalar(ScalarType { name: "Int".to_string() }),
            TypeDefinition::Scalar(ScalarType { name: "String".to_string() }),
            TypeDefinition::Scalar(ScalarType { name: "ID".to_string() }),
            TypeDefinition::Scalar(ScalarType { name: "Date".to_string() }),
            TypeDefinition::Enum(EnumType {
                name: "Color".to_string(),
                values: vec!["RED".to_string(), "GREEN".to_string()],
            }),
            TypeDefinition::InputObject(InputObjectType { name: "Filter".to_string() }),
            TypeDefinition::Object(ObjectType {
                name: "Query".to_string(),
                implements_interfaces: vec![],
                fields: vec![FieldDefinition {
                    name: "paint".to_string(),
                    arguments: vec![
                        InputValue {
                            name: "color".to_string(),
                            value_type: non_null(named("Color")),
                            default_value: None,
                        },
                        InputValue {
                            name: "coats".to_string(),
                            value_type: named("Int"),
                            default_value: Some(Value::Int(2)),
                        },
                        InputValue {
                            name: "note".to_string(),
                            value_type: named("String"),
                            default_value: None,
                        },
                    ],
                    field_type: named("String"),
                }],
            }),
        ],
    }
}

struct Silent;

impl Resolver for Silent {
    fn resolve_objects(
        &self,
        _parent: &Option<Value>,
        _field: &String,
        _field_definition: &FieldDefinition,
        _object_type: &ObjectType,
        _arguments: &Vec<(String, Value)>,
    ) -> Value {
        Value::Null
    }

    fn resolve_object(
        &self,
        _parent: &Option<Value>,
        _field: &String,
        _field_definition: &FieldDefinition,
        _object_type: &ObjectType,
        _arguments: &Vec<(String, Value)>,
    ) -> Value {
        Value::Null
    }

    fn resolve_enum_value(&self, _enum_type: &EnumType, _value: Option<&Value>) -> Value {
        Value::Null
    }

    fn resolve_scalar_value(&self, _scalar_type: &ScalarType, _value: Option<&Value>) -> Value {
        Value::Null
    }

    fn resolve_enum_values(&self, _enum_type: &EnumType, _value: Option<&Value>) -> Value {
        Value::Null
    }

    fn resolve_scalar_values(&self, _scalar_type: &ScalarType, _value: Option<&Value>) -> Value {
        Value::Null
    }

    fn resolve_abstract_type<'a>(
        &self,
        _schema: &'a SchemaDocument,
        _abstract_type: &'a TypeDefinition,
        _object_value: &Value,
    ) -> Option<&'a ObjectType> {
        None
    }
}

fn field(name: &str, arguments: Vec<(String, Value)>, position: Position) -> Field {
    Field {
        position,
        alias: None,
        name: name.to_string(),
        arguments,
        directives: vec![],
        selection_set: SelectionSet { span: (pos(1, 1), pos(1, 1)), items: vec![] },
    }
}

#[test]
fn non_null_type_rejects_null_and_looks_through_otherwise() {
    let schema = builtin_schema();
    assert_eq!(coerce_value(&Value::Null, &non_null(named("Int")), &schema), None);
    assert_eq!(
        coerce_value(&Value::Int(7), &non_null(named("Int")), &schema),
        Some(Value::Int(7))
    );
}

#[test]
fn nullable_types_take_null() {
    let schema = builtin_schema();
    assert_eq!(coerce_value(&Value::Null, &named("Int"), &schema), Some(Value::Null));
    assert_eq!(coerce_value(&Value::Null, &list(named("Int")), &schema), Some(Value::Null));
    assert_eq!(coerce_value(&Value::Null, &named("Nowhere"), &schema), Some(Value::Null));
}

#[test]
fn scalars_take_the_literals_of_their_kind() {
    let schema = builtin_schema();
    assert_eq!(
        coerce_value(&Value::Boolean(true), &named("Boolean"), &schema),
        Some(Value::Boolean(true))
    );
    assert_eq!(coerce_value(&Value::Float(42), &named("Float"), &schema), Some(Value::Float(42)));
    assert_eq!(coerce_value(&Value::Int(-3), &named("Int"), &schema), Some(Value::Int(-3)));
    assert_eq!(coerce_value(&text("a"), &named("String"), &schema), Some(text("a")));
    assert_eq!(coerce_value(&text("a"), &named("ID"), &schema), Some(text("a")));
    assert_eq!(coerce_value(&Value::Int(1), &named("ID"), &schema), None);
    assert_eq!(coerce_value(&Value::Int(1), &named("Float"), &schema), None);
    assert_eq!(coerce_value(&text("1"), &named("Int"), &schema), None);
    assert_eq!(coerce_value(&text("today"), &named("Date"), &schema), None);
    assert_eq!(coerce_value(&Value::Variable("x".to_string()), &named("Int"), &schema), None);
    let id = ScalarType { name: "ID".to_string() };
    assert_eq!(coerce_scalar_value(&text("7"), &id), Some(text("7")));
    assert_eq!(coerce_scalar_value(&Value::Boolean(false), &id), None);
}

#[test]
fn enums_take_their_own_values_only() {
    let schema = builtin_schema();
    let red = Value::Enum("RED".to_string());
    assert_eq!(coerce_value(&red, &named("Color"), &schema), Some(Value::Enum("RED".to_string())));
    assert_eq!(coerce_value(&Value::Enum("BLUE".to_string()), &named("Color"), &schema), None);
    assert_eq!(coerce_value(&text("RED"), &named("Color"), &schema), None);
    let color = EnumType { name: "Color".to_string(), values: vec!["RED".to_string()] };
    assert_eq!(coerce_enum_value(&red, &color), Some(Value::Enum("RED".to_string())));
    assert_eq!(coerce_enum_value(&Value::Enum("GREEN".to_string()), &color), None);
}

#[test]
fn lists_are_coerced_item_by_item() {
    let schema = builtin_schema();
    let items = Value::List(vec![Value::Int(1), Value::Null, Value::Int(3)]);
    assert_eq!(
        coerce_value(&items, &list(named("Int")), &schema),
        Some(Value::List(vec![Value::Int(1), Value::Null, Value::Int(3)]))
    );
    assert_eq!(coerce_value(&items, &list(non_null(named("Int"))), &schema), None);
    assert_eq!(coerce_value(&Value::Int(1), &list(named("Int")), &schema), None);
    assert_eq!(
        coerce_value(&Value::List(vec![]), &non_null(list(named("Int"))), &schema),
        Some(Value::List(vec![]))
    );
}

#[test]
fn unknown_and_other_named_types_take_nothing() {
    let schema = builtin_schema();
    assert_eq!(coerce_value(&Value::Int(1), &named("Nowhere"), &schema), None);
    assert_eq!(coerce_value(&Value::Object(vec![]), &named("Filter"), &schema), None);
    assert_eq!(coerce_value(&Value::Int(1), &named("Query"), &schema), None);
}

fn paint_execution<'a>(
    schema: &'a SchemaDocument,
    document: &'a Document,
) -> Execution<'a, Silent, Silent> {
    Execution::new(schema, schema, document, Arc::new(Silent), Arc::new(Silent))
}

fn paint_definition(schema: &SchemaDocument) -> &FieldDefinition {
    get_field_type(get_root_query_type(schema).unwrap(), &"paint".to_string()).unwrap()
}

#[test]
fn arguments_are_coerced_in_the_order_of_their_definitions() {
    let schema = builtin_schema();
    let document = Document { operations: vec![], fragments: vec![] };
    let execution = paint_execution(&schema, &document);
    let given = field(
        "paint",
        vec![
            ("note".to_string(), text("thin")),
            ("color".to_string(), Value::Enum("GREEN".to_string())),
        ],
        pos(1, 3),
    );
    assert_eq!(
        execution.coerce_argument_values(paint_definition(&schema), &given),
        Ok(vec![
            ("color".to_string(), Value::Enum("GREEN".to_string())),
            ("coats".to_string(), Value::Int(2)),
            ("note".to_string(), text("thin"))
        ])
    );
}

#[test]
fn argument_without_literal_or_default_is_left_out_or_missing() {
    let schema = builtin_schema();
    let document = Document { operations: vec![], fragments: vec![] };
    let execution = paint_execution(&schema, &document);
    let red = field("paint", vec![("color".to_string(), Value::Enum("RED".to_string()))], pos(1, 3));
    assert_eq!(
        execution.coerce_argument_values(paint_definition(&schema), &red),
        Ok(vec![
            ("color".to_string(), Value::Enum("RED".to_string())),
            ("coats".to_string(), Value::Int(2))
        ])
    );
    let bare = field("paint", vec![], pos(6, 2));
    assert_eq!(
        execution.coerce_argument_values(paint_definition(&schema), &bare),
        Err(ExecutionError::MissingArgumentError(pos(6, 2), "color".to_string()))
    );
}

#[test]
fn rejected_literal_is_an_invalid_argument_with_the_literal() {
    let schema = builtin_schema();
    let document = Document { operations: vec![], fragments: vec![] };
    let execution = paint_execution(&schema, &document);
    let given = field(
        "paint",
        vec![
            ("color".to_string(), Value::Enum("RED".to_string())),
            ("coats".to_string(), text("two")),
        ],
        pos(2, 8),
    );
    let failed = execution.coerce_argument_values(paint_definition(&schema), &given);
    assert_eq!(
        failed,
        Err(ExecutionError::InvalidArgumentError(pos(2, 8), "coats".to_string(), text("two")))
    );
    let coats = &paint_definition(&schema).arguments[1];
    assert_eq!(
        execution.coerce_argument_value(&given, coats, &Value::Int(5)),
        Ok(Value::Int(5))
    );
    assert_eq!(
        execution.coerce_argument_value(&given, coats, &Value::Boolean(true)),
        Err(ExecutionError::InvalidArgumentError(
            pos(2, 8),
            "coats".to_string(),
            Value::Boolean(true)
        ))
    );
}

#[test]
fn variable_as_argument_is_not_supported() {
    let schema = builtin_schema();
    let document = Document { operations: vec![], fragments: vec![] };
    let execution = paint_execution(&schema, &document);
    let given =
        field("paint", vec![("color".to_string(), Value::Variable("c".to_string()))], pos(1, 3));
    assert_eq!(
        execution.coerce_argument_values(paint_definition(&schema), &given),
        Err(ExecutionError::NotSupported(
            "Variables are not supported as argument values".to_string()
        ))
    );
}

#[test]
fn default_that_coercion_refuses_differs_from_the_explicit_literal() {
    let schema = SchemaDocument {
        definitions: vec![
            TypeDefinition::Scalar(ScalarType { name: "Int".to_string() }),
            TypeDefinition::Object(ObjectType {
                name: "Query".to_string(),
                implements_interfaces: vec![],
                fields: vec![FieldDefinition {
                    name: "paint".to_string(),
                    arguments: vec![InputValue {
                        name: "coats".to_string(),
                        value_type: named("Int"),
                        default_value: Some(text("two")),
                    }],
                    field_type: named("Int"),
                }],
            }),
        ],
    };
    let document = Document { operations: vec![], fragments: vec![] };
    let execution = paint_execution(&schema, &document);
    let omitted = field("paint", vec![], pos(1, 3));
    let explicit = field("paint", vec![("coats".to_string(), text("two"))], pos(1, 3));
    assert_eq!(
        execution.coerce_argument_values(paint_definition(&schema), &omitted),
        Ok(vec![("coats".to_string(), text("two"))])
    );
    assert_eq!(
        execution.coerce_argument_values(paint_definition(&schema), &explicit),
        Err(ExecutionError::InvalidArgumentError(pos(1, 3), "coats".to_string(), text("two")))
    );
}

#[test]
fn set_argument_replaces_in_place_or_appends() {
    let mut arguments = vec![("a".to_string(), Value::Int(1)), ("b".to_string(), Value::Int(2))];
    set_argument(&mut arguments, "a".to_string(), Value::Int(9));
    set_argument(&mut arguments, "c".to_string(), Value::Int(3));
    assert_eq!(
        arguments,
        vec![
            ("a".to_string(), Value::Int(9)),
            ("b".to_string(), Value::Int(2)),
            ("c".to_string(), Value::Int(3))
        ]
    );
}

fn directive(name: &str, arguments: Vec<(&str, Value)>) -> Directive {
    Directive {
        name: name.to_string(),
        arguments: arguments.into_iter().map(|(k, v)| (k.to_string(), v)).collect(),
    }
}

fn directed(directives: Vec<Directive>) -> Selection {
    let mut f = field("name", vec![], pos(1, 3));
    f.directives = directives;
    Selection::Field(f)
}

#[test]
fn skip_directive_decides_by_its_condition() {
    assert!(!skip_selection(&directed(vec![])));
    assert!(skip_selection(&directed(vec![directive("skip", vec![("if", Value::Boolean(true))])])));
    assert!(!skip_selection(&directed(vec![directive(
        "skip",
        vec![("if", Value::Boolean(false))]
    )])));
    assert!(skip_selection(&directed(vec![directive("skip", vec![])])));
    assert!(!skip_selection(&directed(vec![directive("skip", vec![("if", text("yes"))])])));
    assert!(!skip_selection(&directed(vec![directive(
        "include",
        vec![("if", Value::Boolean(true))]
    )])));
}

#[test]
fn include_directive_decides_by_its_condition() {
    assert!(include_selection(&directed(vec![])));
    assert!(include_selection(&directed(vec![directive(
        "include",
        vec![("if", Value::Boolean(true))]
    )])));
    assert!(!include_selection(&directed(vec![directive(
        "include",
        vec![("if", Value::Boolean(false))]
    )])));
    assert!(include_selection(&directed(vec![directive("include", vec![])])));
    assert!(!include_selection(&directed(vec![directive("include", vec![("if", Value::Int(1))])])));
    let spread = Selection::FragmentSpread(FragmentSpread {
        fragment_name: "F".to_string(),
        directives: vec![directive("include", vec![("if", Value::Boolean(false))])],
    });
    assert!(!include_selection(&spread));
    assert_eq!(get_directive(&spread, "include").map(|d| d.name.clone()), Some("include".to_string()));
    assert_eq!(get_directive(&spread, "skip"), None);
}

#[test]
fn lookups_take_the_first_match() {
    let schema = builtin_schema();
    assert_eq!(
        get_named_type(&schema, &"Color".to_string()).map(|d| get_type_name(d).clone()),
        Some("Color".to_string())
    );
    assert_eq!(get_named_type(&schema, &"Nowhere".to_string()), None);
    let root = get_root_query_type(&schema).unwrap();
    assert_eq!(root.name, "Query");
    assert_eq!(get_field_type(root, &"paint".to_string()).map(|f| f.arguments.len()), Some(3));
    assert_eq!(get_field_type(root, &"draw".to_string()), None);
    assert_eq!(get_argument_definitions(root, &"paint".to_string()).map(|a| a.len()), Some(3));
    assert_eq!(get_argument_definitions(root, &"draw".to_string()), None);
    assert_eq!(get_root_query_type(&SchemaDocument { definitions: vec![] }), None);
    let arguments = vec![("a".to_string(), Value::Int(1)), ("a".to_string(), Value::Int(2))];
    assert_eq!(get_argument_value(&arguments, &"a".to_string()), Some(&Value::Int(1)));
    assert_eq!(get_argument_value(&arguments, &"b".to_string()), None);
    assert_eq!(Value::get(&arguments, &"a".to_string()), Some(&Value::Int(1)));
}

#[test]
fn response_key_is_the_alias_or_the_name() {
    let mut f = field("name", vec![], pos(1, 3));
    assert_eq!(get_response_key(&f), "name");
    f.alias = Some("called".to_string());
    assert_eq!(get_response_key(&f), "called");
}

fn operation(name: Option<&str>) -> Operation {
    Operation {
        name: name.map(|n| n.to_string()),
        selection_set: SelectionSet { span: (pos(1, 1), pos(1, 1)), items: vec![] },
    }
}

#[test]
fn operation_is_found_by_name_or_alone() {
    let one = Document {
        operations: vec![OperationDefinition::Query(operation(Some("A")))],
        fragments: vec![],
    };
    assert_eq!(get_operation(&one, None), Ok(&one.operations[0]));
    let two = Document {
        operations: vec![
            OperationDefinition::Query(operation(Some("A"))),
            OperationDefinition::Mutation(operation(Some("B"))),
            OperationDefinition::Subscription(operation(Some("B"))),
        ],
        fragments: vec![],
    };
    assert_eq!(get_operation(&two, None), Err(ExecutionError::OperationNameRequired));
    assert_eq!(get_operation(&two, Some(&"B".to_string())), Ok(&two.operations[1]));
    assert_eq!(
        get_operation(&two, Some(&"C".to_string())),
        Err(ExecutionError::OperationNotFound("C".to_string()))
    );
    let none = Document { operations: vec![], fragments: vec![] };
    assert_eq!(get_operation(&none, None), Err(ExecutionError::OperationNameRequired));
    assert_eq!(
        get_operation(&none, Some(&"A".to_string())),
        Err(ExecutionError::OperationNameRequired)
    );
}

#[test]
fn merged_selection_set_covers_the_spans_and_keeps_the_order() {
    let mut first = field("user", vec![], pos(1, 1));
    first.selection_set = SelectionSet {
        span: (pos(2, 5), pos(4, 1)),
        items: vec![Selection::Field(field("name", vec![], pos(3, 1)))],
    };
    let mut second = field("user", vec![], pos(5, 1));
    second.selection_set = SelectionSet {
        span: (pos(2, 3), pos(3, 9)),
        items: vec![
            Selection::Field(field("email", vec![], pos(6, 1))),
            Selection::Field(field("name", vec![], pos(7, 1))),
        ],
    };
    let merged = Execution::<Silent, Silent>::merge_selection_sets(&vec![first, second]);
    assert_eq!(merged.span, (pos(2, 3), pos(4, 1)));
    let names: Vec<String> = merged
        .items
        .iter()
        .map(|s| match s {
            Selection::Field(f) => f.name.clone(),
            _ => unreachable!(),
        })
        .collect();
    assert_eq!(names, vec!["name".to_string(), "email".to_string(), "name".to_string()]);
}

#[test]
fn positions_are_ordered_by_line_then_column() {
    assert_eq!(pos(1, 9).earliest(pos(2, 1)), pos(1, 9));
    assert_eq!(pos(2, 1).earliest(pos(1, 9)), pos(1, 9));
    assert_eq!(pos(3, 4).earliest(pos(3, 2)), pos(3, 2));
    assert_eq!(pos(1, 9).latest(pos(2, 1)), pos(2, 1));
    assert_eq!(pos(3, 4).latest(pos(3, 2)), pos(3, 4));
    assert_eq!(pos(3, 4).latest(pos(3, 4)), pos(3, 4));
}

fn spread(name: &str) -> Selection {
    Selection::FragmentSpread(FragmentSpread { fragment_name: name.to_string(), directives: vec![] })
}

#[test]
fn nesting_is_counted_through_fragments() {
    let mut friends = field("friends", vec![], pos(1, 1));
    friends.selection_set.items = vec![spread("Deep")];
    let looping = Document {
        operations: vec![],
        fragments: vec![
            FragmentDefinition {
                name: "Deep".to_string(),
                type_condition: "User".to_string(),
                selection_set: SelectionSet {
                    span: (pos(1, 1), pos(1, 1)),
                    items: vec![Selection::Field(friends)],
                },
            },
            FragmentDefinition {
                name: "Flat".to_string(),
                type_condition: "User".to_string(),
                selection_set: SelectionSet {
                    span: (pos(1, 1), pos(1, 1)),
                    items: vec![Selection::Field(field("name", vec![], pos(1, 1))), spread("Flat")],
                },
            },
        ],
    };
    let flat = SelectionSet { span: (pos(1, 1), pos(1, 1)), items: vec![spread("Flat")] };
    assert!(!nests_within(&looping, &flat, 0));
    assert!(nests_within(&looping, &flat, 1));
    let deep = SelectionSet { span: (pos(1, 1), pos(1, 1)), items: vec![spread("Deep")] };
    assert!(!nests_within(&looping, &deep, 1));
    assert!(!nests_within(&looping, &deep, 50));
    let mut user = field("user", vec![], pos(1, 1));
    user.selection_set.items = vec![Selection::Field(field("name", vec![], pos(1, 1)))];
    let two = SelectionSet { span: (pos(1, 1), pos(1, 1)), items: vec![Selection::Field(user)] };
    assert!(!nests_within(&looping, &two, 1));
    assert!(nests_within(&looping, &two, 2));
    assert_eq!(get_fragment(&looping, &"Flat".to_string()).map(|f| f.name.clone()), Some("Flat".to_string()));
    assert_eq!(get_fragment(&looping, &"Gone".to_string()), None);
}

#[test]
fn every_error_has_its_message_and_its_places() {
    let p = pos(4, 2);
    let cases: Vec<(ExecutionError, &str, Vec<Position>)> = vec![
        (ExecutionError::OperationNameRequired, "Operation name required", vec![]),
        (
            ExecutionError::OperationNotFound("A".to_string()),
            "Operation name not found: A",
            vec![],
        ),
        (ExecutionError::NotSupported("this".to_string()), "Not supported: this", vec![]),
        (
            ExecutionError::NoRootQueryObjectType,
            "No root Query type defined in the schema",
            vec![],
        ),
        (
            ExecutionError::NoRootSubscriptionObjectType,
            "No root Subscription type defined in the schema",
            vec![],
        ),
        (
            ExecutionError::ResolveEntityError(p, "user".to_string()),
            "Failed to resolve entity: user",
            vec![p],
        ),
        (
            ExecutionError::NonNullError(p, "name".to_string()),
            "Null value resolved for non-null field: name",
            vec![p],
        ),
        (
            ExecutionError::ListValueError(p, "users".to_string()),
            "Non-list value resolved for list field: users",
            vec![p],
        ),
        (
            ExecutionError::NamedTypeError("Ghost".to_string()),
            "Failed to resolve named type: Ghost",
            vec![],
        ),
        (
            ExecutionError::AbstractTypeError("Node".to_string()),
            "Failed to resolve abstract type: Node",
            vec![],
        ),
        (
            ExecutionError::InvalidArgumentError(p, "first".to_string(), text("x")),
            "Invalid value provided for argument \"first\"",
            vec![p],
        ),
        (
            ExecutionError::MissingArgumentError(p, "id".to_string()),
            "No value provided for required argument: id",
            vec![p],
        ),
    ];
    for (error, message, places) in cases {
        assert_eq!(error.message(), message);
        assert_eq!(error.locations(), places);
        assert_eq!(error.clone(), error);
    }
}

#[test]
fn results_collect_errors_in_order() {
    let mut result = QueryResult::new(text("data"), vec![ExecutionError::OperationNameRequired]);
    result.add_error(ExecutionError::NoRootQueryObjectType);
    assert_eq!(result.value, text("data"));
    assert_eq!(
        result.errors,
        vec![ExecutionError::OperationNameRequired, ExecutionError::NoRootQueryObjectType]
    );
    let failed = QueryResult::from(ExecutionError::NamedTypeError("T".to_string()));
    assert_eq!(failed.value, Value::Null);
    assert_eq!(failed.errors, vec![ExecutionError::NamedTypeError("T".to_string())]);
}

#[test]
fn subscriptions_are_answered_with_an_error() {
    let subscription = Subscription {
        document: Document { operations: vec![], fragments: vec![] },
        schema: builtin_schema(),
        variables: None,
    };
    let result = execute_subscription(subscription, SubscriptionExecutionOptions { resolver: Silent });
    assert!(!result.streaming);
    assert_eq!(result.errors, vec![ExecutionError::NotSupported("What a pity".to_string())]);
    let mut made = SubscriptionResult::new(true, vec![]);
    made.add_error(ExecutionError::NoRootSubscriptionObjectType);
    assert!(made.streaming);
    assert_eq!(made.errors, vec![ExecutionError::NoRootSubscriptionObjectType]);
    let failed = SubscriptionResult::from(ExecutionError::OperationNameRequired);
    assert!(!failed.streaming);
    assert_eq!(failed.errors, vec![ExecutionError::OperationNameRequired]);
}

#[test]
fn values_and_types_are_compared_by_what_they_hold() {
    let a = Value::Object(vec![
        ("list".to_string(), Value::List(vec![Value::Int(1), text("x")])),
        ("flag".to_string(), Value::Boolean(true)),
    ]);
    assert!(value_eq(&a, &a.clone()));
    assert!(!value_eq(&a, &Value::Object(vec![("flag".to_string(), Value::Boolean(true))])));
    assert!(!value_eq(&Value::Int(1), &Value::Float(1)));
    assert!(!value_eq(&Value::Enum("A".to_string()), &text("A")));
    assert!(value_eq(&Value::Null, &Value::Null));
    assert!(Value::Null.is_null());
    assert!(!Value::Int(0).is_null());
    let entries = vec![("k".to_string(), Value::Int(1))];
    assert_eq!(clone_entries(&entries), entries);
    assert!(type_eq(&list(non_null(named("Int"))), &list(non_null(named("Int")))));
    assert!(!type_eq(&list(named("Int")), &non_null(named("Int"))));
    assert!(!type_eq(&named("Int"), &named("ID")));
    let schema = builtin_schema();
    let root = get_root_query_type(&schema).unwrap();
    let mut other = ObjectType {
        name: "Query".to_string(),
        implements_interfaces: vec![],
        fields: vec![],
    };
    assert!(object_type_eq(root, root));
    assert!(!object_type_eq(root, &other));
    other.fields = vec![FieldDefinition {
        name: "paint".to_string(),
        arguments: vec![],
        field_type: named("String"),
    }];
    assert!(!object_type_eq(root, &other));
    assert!(!field_definition_eq(&root.fields[0], &other.fields[0]));
    assert!(strings_eq(&vec!["a".to_string()], &vec!["a".to_string()]));
    assert!(!strings_eq(&vec!["a".to_string()], &vec!["b".to_string()]));
    assert!(!strings_eq(&vec!["a".to_string()], &vec![]));
    assert!(contains_name(&vec!["a".to_string(), "b".to_string()], &"b".to_string()));
    assert!(!contains_name(&vec!["a".to_string()], &"b".to_string()));
    assert_eq!(clone_names(&vec!["a".to_string()]), vec!["a".to_string()]);
    assert!(text_is(&"Query".to_string(), "Query"));
    assert!(!text_is(&"query".to_string(), "Query"));
}

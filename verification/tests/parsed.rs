use graphql_engine::ast as e;
use graphql_engine::schema as es;
use graphql_engine::position::Position;
use graphql_engine::value::Value;
use graphql_parser::{query as q, schema as s, Pos};

/// The position of an element in the query.
fn position(pos: Pos) -> Position {
    Position::new(pos.line, pos.column)
}

/// A literal of the parser as a value of the engine.
fn value(v: &q::Value) -> Value {
    match v {
        q::Value::Variable(name) => Value::Variable(name.clone()),
        q::Value::Int(number) => Value::Int(number.as_i64().unwrap_or_default()),
        q::Value::Float(f) => Value::Float(f.to_bits()),
        q::Value::String(text) => Value::String(text.clone()),
        q::Value::Boolean(b) => Value::Boolean(*b),
        q::Value::Null => Value::Null,
        q::Value::Enum(name) => Value::Enum(name.clone()),
        q::Value::List(items) => Value::List(items.iter().map(value).collect()),
        q::Value::Object(entries) => {
            Value::Object(entries.iter().map(|(k, v)| (k.clone(), value(v))).collect())
        }
    }
}

fn arguments(arguments: &[(q::Name, q::Value)]) -> Vec<(String, Value)> {
    arguments.iter().map(|(name, v)| (name.clone(), value(v))).collect()
}

fn directives(directives: &[q::Directive]) -> Vec<e::Directive> {
    directives
        .iter()
        .map(|d| e::Directive { name: d.name.clone(), arguments: arguments(&d.arguments) })
        .collect()
}

/// A selection set of the parser as one of the engine.
fn selection_set(set: &q::SelectionSet) -> e::SelectionSet {
    e::SelectionSet {
        span: (position(set.span.0), position(set.span.1)),
        items: set.items.iter().map(selection).collect(),
    }
}

fn selection(selection: &q::Selection) -> e::Selection {
    match selection {
        q::Selection::Field(f) => e::Selection::Field(e::Field {
            position: position(f.position),
            alias: f.alias.clone(),
            name: f.name.clone(),
            arguments: arguments(&f.arguments),
            directives: directives(&f.directives),
            selection_set: selection_set(&f.selection_set),
        }),
        q::Selection::FragmentSpread(spread) => e::Selection::FragmentSpread(e::FragmentSpread {
            fragment_name: spread.fragment_name.clone(),
            directives: directives(&spread.directives),
        }),
        q::Selection::InlineFragment(inline) => e::Selection::InlineFragment(e::InlineFragment {
            directives: directives(&inline.directives),
        }),
    }
}

fn operation(name: &Option<q::Name>, set: &q::SelectionSet) -> e::Operation {
    e::Operation { name: name.clone(), selection_set: selection_set(set) }
}

/// A query document of the parser as one of the engine.
fn document(document: &q::Document) -> e::Document {
    let mut operations = vec![];
    let mut fragments = vec![];
    for definition in &document.definitions {
        match definition {
            q::Definition::Operation(q::OperationDefinition::SelectionSet(set)) => {
                operations.push(e::OperationDefinition::SelectionSet(selection_set(set)))
            }
            q::Definition::Operation(q::OperationDefinition::Query(o)) => operations
                .push(e::OperationDefinition::Query(operation(&o.name, &o.selection_set))),
            q::Definition::Operation(q::OperationDefinition::Mutation(o)) => operations
                .push(e::OperationDefinition::Mutation(operation(&o.name, &o.selection_set))),
            q::Definition::Operation(q::OperationDefinition::Subscription(o)) => operations
                .push(e::OperationDefinition::Subscription(operation(&o.name, &o.selection_set))),
            q::Definition::Fragment(f) => {
                let q::TypeCondition::On(on) = &f.type_condition;
                fragments.push(e::FragmentDefinition {
                    name: f.name.clone(),
                    type_condition: on.clone(),
                    selection_set: selection_set(&f.selection_set),
                })
            }
        }
    }
    e::Document { operations, fragments }
}

fn declared_type(t: &s::Type) -> es::Type {
    match t {
        s::Type::NamedType(name) => es::Type::NamedType(name.clone()),
        s::Type::ListType(inner) => es::Type::ListType(Box::new(declared_type(inner))),
        s::Type::NonNullType(inner) => es::Type::NonNullType(Box::new(declared_type(inner))),
    }
}

fn fields(fields: &[s::Field]) -> Vec<es::FieldDefinition> {
    fields
        .iter()
        .map(|f| es::FieldDefinition {
            name: f.name.clone(),
            arguments: f
                .arguments
                .iter()
                .map(|a| es::InputValue {
                    name: a.name.clone(),
                    value_type: declared_type(&a.value_type),
                    default_value: a.default_value.as_ref().map(value),
                })
                .collect(),
            field_type: declared_type(&f.field_type),
        })
        .collect()
}

/// A schema document of the parser as one of the engine: its type
/// definitions, in their order.
fn schema(document: &s::Document) -> es::SchemaDocument {
    let mut definitions = vec![];
    for definition in &document.definitions {
        if let s::Definition::TypeDefinition(t) = definition {
            definitions.push(match t {
                s::TypeDefinition::Scalar(t) => {
                    es::TypeDefinition::Scalar(es::ScalarType { name: t.name.clone() })
                }
                s::TypeDefinition::Object(t) => es::TypeDefinition::Object(es::ObjectType {
                    name: t.name.clone(),
                    implements_interfaces: t.implements_interfaces.clone(),
                    fields: fields(&t.fields),
                }),
                s::TypeDefinition::Interface(t) => {
                    es::TypeDefinition::Interface(es::InterfaceType {
                        name: t.name.clone(),
                        fields: fields(&t.fields),
                    })
                }
                s::TypeDefinition::Union(t) => es::TypeDefinition::Union(es::UnionType {
                    name: t.name.clone(),
                    types: t.types.clone(),
                }),
                s::TypeDefinition::Enum(t) => es::TypeDefinition::Enum(es::EnumType {
                    name: t.name.clone(),
                    values: t.values.iter().map(|v| v.name.clone()).collect(),
                }),
                s::TypeDefinition::InputObject(t) => {
                    es::TypeDefinition::InputObject(es::InputObjectType { name: t.name.clone() })
                }
            });
        }
    }
    es::SchemaDocument { definitions }
}

use graphql_engine::error::ExecutionError;
use graphql_engine::nesting::nests_within;
use graphql_engine::query::{execute_query, execute_root_selection_set, Query, QueryOptions};
use graphql_engine::resolver::Resolver;
use graphql_engine::service::{route, Route};

/// A resolver that answers every object field with one object and hands the
/// parent's sub-field back for scalars and enums.
struct Fixed(Value);

impl Resolver for Fixed {
    fn resolve_objects(
        &self,
        _parent: &Option<Value>,
        _field: &String,
        _field_definition: &es::FieldDefinition,
        _object_type: &es::ObjectType,
        _arguments: &Vec<(String, Value)>,
    ) -> Value {
        Value::List(vec![self.0.clone()])
    }

    fn resolve_object(
        &self,
        _parent: &Option<Value>,
        _field: &String,
        _field_definition: &es::FieldDefinition,
        _object_type: &es::ObjectType,
        _arguments: &Vec<(String, Value)>,
    ) -> Value {
        self.0.clone()
    }

    fn resolve_enum_value(&self, _enum_type: &es::EnumType, value: Option<&Value>) -> Value {
        value.cloned().unwrap_or(Value::Null)
    }

    fn resolve_scalar_value(&self, _scalar_type: &es::ScalarType, value: Option<&Value>) -> Value {
        value.cloned().unwrap_or(Value::Null)
    }

    fn resolve_enum_values(&self, _enum_type: &es::EnumType, value: Option<&Value>) -> Value {
        value.cloned().unwrap_or(Value::Null)
    }

    fn resolve_scalar_values(&self, _scalar_type: &es::ScalarType, value: Option<&Value>) -> Value {
        value.cloned().unwrap_or(Value::Null)
    }

    fn resolve_abstract_type<'a>(
        &self,
        schema: &'a es::SchemaDocument,
        _abstract_type: &'a es::TypeDefinition,
        object_value: &Value,
    ) -> Option<&'a es::ObjectType> {
        let wanted = match object_value {
            Value::Object(entries) => match Value::get(entries, &"__typename".to_string()) {
                Some(Value::String(name)) => name.clone(),
                _ => return None,
            },
            _ => return None,
        };
        schema.definitions.iter().find_map(|d| match d {
            es::TypeDefinition::Object(t) if t.name == wanted => Some(t),
            _ => None,
        })
    }
}

fn jordi() -> Value {
    Value::Object(vec![("name".to_string(), Value::String("Jordi".to_string()))])
}

fn parsed_query(schema_text: &str, query_text: &str) -> Query {
    Query {
        document: document(&graphql_parser::parse_query(query_text).unwrap()),
        schema: schema(&graphql_parser::parse_schema(schema_text).unwrap()),
        variables: None,
    }
}

fn options(data: Value) -> QueryOptions<Fixed> {
    QueryOptions { resolver: Fixed(data) }
}

#[test]
fn posting_valid_queries_yields_result_response() {
    assert_eq!(route("POST", "/graphql"), Route::Query);
    let query = parsed_query(
        "\
         scalar String \
         type Query { name: String } \
         ",
        "{ name }",
    );
    let selections = match &query.document.operations[0] {
        e::OperationDefinition::SelectionSet(set) => set.clone(),
        _ => unreachable!(),
    };
    let result =
        execute_root_selection_set(&query, options(Value::Null), &selections, &Some(jordi()));
    assert_eq!(result.errors.len(), 0);
    let name = match &result.value {
        Value::Object(data) => Value::get(data, &"name".to_string()).cloned(),
        _ => None,
    };
    assert_eq!(name, Some(Value::String("Jordi".to_string())));
    assert_eq!(result.value, jordi());
}

#[test]
fn query_without_a_root_value_has_null_scalars() {
    let query = parsed_query("scalar String type Query { name: String }", "{ name }");
    let result = execute_query(&query, options(jordi()));
    assert_eq!(result.value, Value::Object(vec![("name".to_string(), Value::Null)]));
    assert_eq!(result.errors.len(), 0);
}

#[test]
fn parsed_query_with_an_undeclared_field_gives_an_empty_object() {
    let query = parsed_query("scalar String type Query { name: String }", "{ missing }");
    let result = execute_query(&query, options(jordi()));
    assert_eq!(result.value, Value::Object(vec![]));
    assert_eq!(result.errors.len(), 0);
}

#[test]
fn parsed_query_is_executed_with_aliases_fragments_and_directives() {
    let schema_text = "scalar String scalar Int \
        interface Named { name: String } \
        type User implements Named { name: String email: String } \
        type Item { title: String } \
        union Thing = User | Item \
        type Query { user(id: ID!, first: Int = 5): User users: [User!]! }
        scalar ID";
    let query_text = "query Q { \
        me: user(id: \"1\") { ...Parts called: name hidden: email @skip(if: true) } \
        users { name @include(if: false) email ... Parts } \
        user { name } \
      } \
      fragment Parts on Named { name ...ItemParts ...Parts } \
      fragment ItemParts on Item { title }";
    let query = parsed_query(schema_text, query_text);
    let data = Value::Object(vec![
        ("name".to_string(), Value::String("Jordi".to_string())),
        ("email".to_string(), Value::String("j@example.org".to_string())),
    ]);
    let selections = match &query.document.operations[0] {
        e::OperationDefinition::Query(o) => &o.selection_set,
        _ => unreachable!(),
    };
    assert!(nests_within(&query.document, selections, 2));
    assert!(!nests_within(&query.document, selections, 1));
    let result = execute_query(&query, options(data));
    let name = ("name".to_string(), Value::String("Jordi".to_string()));
    let email = ("email".to_string(), Value::String("j@example.org".to_string()));
    assert_eq!(
        result.value,
        Value::Object(vec![
            (
                "me".to_string(),
                Value::Object(vec![
                    name.clone(),
                    ("called".to_string(), Value::String("Jordi".to_string()))
                ])
            ),
            (
                "users".to_string(),
                Value::List(vec![Value::Object(vec![email.clone(), name.clone()])])
            ),
            ("user".to_string(), Value::Null),
        ])
    );
    assert_eq!(result.errors.len(), 1);
    match &result.errors[0] {
        ExecutionError::MissingArgumentError(at, argument) => {
            assert_eq!(argument, "id");
            assert_eq!(at.line, 1);
        }
        other => panic!("another error: {:?}", other),
    }
}

#[test]
fn parsed_meta_query_is_answered_by_the_overlay() {
    let query = parsed_query(
        "scalar String type Query { name: String }",
        "{ __schema { queryType { name } } }",
    );
    let result = execute_query(&query, options(Value::Null));
    let named = Value::Object(vec![("name".to_string(), Value::String("Query".to_string()))]);
    assert_eq!(
        result.value,
        Value::Object(vec![(
            "__schema".to_string(),
            Value::Object(vec![("queryType".to_string(), named)])
        )])
    );
    assert_eq!(result.errors.len(), 0);
}

#[test]
fn parsed_literals_become_values() {
    let parsed = graphql_parser::parse_query(
        "{ f(a: 1, b: 1.5, c: \"s\", d: true, e: null, g: RED, h: [1, 2], i: {k: 1}, j: $v) }",
    )
    .unwrap();
    let converted = document(&parsed);
    let arguments = match &converted.operations[0] {
        e::OperationDefinition::SelectionSet(set) => match &set.items[0] {
            e::Selection::Field(f) => f.arguments.clone(),
            _ => unreachable!(),
        },
        _ => unreachable!(),
    };
    let expected = vec![
        ("a".to_string(), Value::Int(1)),
        ("b".to_string(), Value::Float(1.5f64.to_bits())),
        ("c".to_string(), Value::String("s".to_string())),
        ("d".to_string(), Value::Boolean(true)),
        ("e".to_string(), Value::Null),
        ("g".to_string(), Value::Enum("RED".to_string())),
        ("h".to_string(), Value::List(vec![Value::Int(1), Value::Int(2)])),
        ("i".to_string(), Value::Object(vec![("k".to_string(), Value::Int(1))])),
        ("j".to_string(), Value::Variable("v".to_string())),
    ];
    assert_eq!(arguments, expected);
}

#[test]
fn schema_of_the_meta_fields_is_the_standard_one() {
    let built = graphql_engine::introspection::introspection_schema();
    let parsed = schema(
        &graphql_parser::parse_schema(
            "scalar Boolean \
             scalar String \
             type Query { \
               __schema: __Schema! \
               __type(name: String!): __Type \
             } \
             type __Schema { \
               types: [__Type!]! \
               queryType: __Type! \
               mutationType: __Type \
               subscriptionType: __Type \
               directives: [__Directive!]! \
             } \
             type __Type { \
               kind: __TypeKind! \
               name: String \
               description: String \
               fields(includeDeprecated: Boolean = false): [__Field!] \
               interfaces: [__Type!] \
               possibleTypes: [__Type!] \
               enumValues(includeDeprecated: Boolean = false): [__EnumValue!] \
               inputFields: [__InputValue!] \
               ofType: __Type \
             } \
             type __Field { \
               name: String! \
               description: String \
               args: [__InputValue!]! \
               type: __Type! \
               isDeprecated: Boolean! \
               deprecationReason: String \
             } \
             type __InputValue { \
               name: String! \
               description: String \
               type: __Type! \
               defaultValue: String \
             } \
             type __EnumValue { \
               name: String! \
               description: String \
               isDeprecated: Boolean! \
               deprecationReason: String \
             } \
             enum __TypeKind { \
               SCALAR OBJECT INTERFACE UNION ENUM INPUT_OBJECT LIST NON_NULL \
             } \
             type __Directive { \
               name: String! \
               description: String \
               locations: [__DirectiveLocation!]! \
               args: [__InputValue!]! \
             } \
             enum __DirectiveLocation { \
               QUERY MUTATION SUBSCRIPTION FIELD FRAGMENT_DEFINITION FRAGMENT_SPREAD \
               INLINE_FRAGMENT SCHEMA SCALAR OBJECT FIELD_DEFINITION ARGUMENT_DEFINITION \
               INTERFACE UNION ENUM ENUM_VALUE INPUT_OBJECT INPUT_FIELD_DEFINITION \
             }",
        )
        .unwrap(),
    );
    assert_eq!(built, parsed);
}

#[test]
fn fragment_visited_inside_another_is_not_expanded_again() {
    let query = parsed_query(
        "scalar String type Query { b: String }",
        "{ ...A ...B } fragment A on Query { ...B } fragment B on Query { b }",
    );
    let meta = graphql_engine::introspection::introspection_schema();
    let execution = graphql_engine::execution::Execution::new(
        &query.schema,
        &meta,
        &query.document,
        std::sync::Arc::new(Fixed(Value::Null)),
        std::sync::Arc::new(Fixed(Value::Null)),
    );
    let root = match &query.schema.definitions[1] {
        es::TypeDefinition::Object(t) => t,
        _ => unreachable!(),
    };
    let selections = match &query.document.operations[0] {
        e::OperationDefinition::SelectionSet(set) => set,
        _ => unreachable!(),
    };
    let groups = execution.collect_fields(root, selections, None).unwrap();
    assert_eq!(groups.len(), 1);
    assert_eq!(groups.get("b").map(|nodes| nodes.len()), Some(1));

    let later = parsed_query(
        "scalar String type Query { a: String b: String }",
        "{ ...A a ...C } fragment A on Query { b ...B } fragment B on Query { ...C } \
         fragment C on Query { a b }",
    );
    let execution = graphql_engine::execution::Execution::new(
        &later.schema,
        &meta,
        &later.document,
        std::sync::Arc::new(Fixed(Value::Null)),
        std::sync::Arc::new(Fixed(Value::Null)),
    );
    let root = match &later.schema.definitions[1] {
        es::TypeDefinition::Object(t) => t,
        _ => unreachable!(),
    };
    let selections = match &later.document.operations[0] {
        e::OperationDefinition::SelectionSet(set) => set,
        _ => unreachable!(),
    };
    let groups = execution.collect_fields(root, selections, None).unwrap();
    let keys: Vec<&String> = groups.keys().collect();
    assert_eq!(keys, vec!["b", "a"]);
    assert_eq!(groups.get("b").map(|nodes| nodes.len()), Some(2));
    assert_eq!(groups.get("a").map(|nodes| nodes.len()), Some(2));

    let given = execution
        .collect_fields(root, selections, Some(vec!["A".to_string(), "C".to_string()]))
        .unwrap();
    assert_eq!(given.len(), 1);
    assert_eq!(given.get("a").map(|nodes| nodes.len()), Some(1));
}

fn named_value(name: &str, value: Value) -> (String, Value) {
    (name.to_string(), value)
}

fn string(text: &str) -> Value {
    Value::String(text.to_string())
}

fn kind(name: &str) -> Value {
    Value::Enum(name.to_string())
}

#[test]
fn schema_describes_itself_through_the_meta_fields() {
    let query = parsed_query(
        "scalar String \
         type Query { user: User } \
         type User { name: String! tags: [String] }",
        "{ \
           __type(name: \"User\") { \
             kind name fields { name type { kind name ofType { kind name } } } \
           } \
           nothing: __type(name: \"Nothing\") { name } \
           __schema { \
             types { name kind } \
             queryType { name fields { name args { name } } } \
             mutationType { name } \
           } \
         }",
    );
    let result = execute_query(&query, options(Value::Null));
    assert_eq!(result.errors.len(), 0);
    let scalar_string = Value::Object(vec![
        named_value("kind", kind("SCALAR")),
        named_value("name", string("String")),
    ]);
    let expected = Value::Object(vec![
        named_value(
            "__type",
            Value::Object(vec![
                named_value("kind", kind("OBJECT")),
                named_value("name", string("User")),
                named_value(
                    "fields",
                    Value::List(vec![
                        Value::Object(vec![
                            named_value("name", string("name")),
                            named_value(
                                "type",
                                Value::Object(vec![
                                    named_value("kind", kind("NON_NULL")),
                                    named_value("name", Value::Null),
                                    named_value("ofType", scalar_string.clone()),
                                ]),
                            ),
                        ]),
                        Value::Object(vec![
                            named_value("name", string("tags")),
                            named_value(
                                "type",
                                Value::Object(vec![
                                    named_value("kind", kind("LIST")),
                                    named_value("name", Value::Null),
                                    named_value("ofType", scalar_string.clone()),
                                ]),
                            ),
                        ]),
                    ]),
                ),
            ]),
        ),
        named_value("nothing", Value::Null),
        named_value(
            "__schema",
            Value::Object(vec![
                named_value(
                    "types",
                    Value::List(vec![
                        Value::Object(vec![
                            named_value("name", string("String")),
                            named_value("kind", kind("SCALAR")),
                        ]),
                        Value::Object(vec![
                            named_value("name", string("Query")),
                            named_value("kind", kind("OBJECT")),
                        ]),
                        Value::Object(vec![
                            named_value("name", string("User")),
                            named_value("kind", kind("OBJECT")),
                        ]),
                    ]),
                ),
                named_value(
                    "queryType",
                    Value::Object(vec![
                        named_value("name", string("Query")),
                        named_value(
                            "fields",
                            Value::List(vec![Value::Object(vec![
                                named_value("name", string("user")),
                                named_value("args", Value::List(vec![])),
                            ])]),
                        ),
                    ]),
                ),
                named_value("mutationType", Value::Null),
            ]),
        ),
    ]);
    assert_eq!(result.value, expected);
}

#[test]
fn interface_is_described_with_the_types_that_implement_it() {
    let query = parsed_query(
        "scalar String \
         interface Named { name: String } \
         type Query { named: Named } \
         type User implements Named { name: String } \
         type Item { title: String } \
         type Pet implements Named { name: String } \
         union Thing = Item | Pet \
         enum Color { RED GREEN }",
        "{ \
           named: __type(name: \"Named\") { kind possibleTypes { name kind } interfaces { name } } \
           user: __type(name: \"User\") { interfaces { name fields { name } } possibleTypes { name } } \
           thing: __type(name: \"Thing\") { kind possibleTypes { name } fields { name } } \
           color: __type(name: \"Color\") { kind enumValues { name isDeprecated } } \
         }",
    );
    let result = execute_query(&query, options(Value::Null));
    assert_eq!(result.errors.len(), 0);
    let name = |n: &str| Value::Object(vec![named_value("name", string(n))]);
    let expected = Value::Object(vec![
        named_value(
            "named",
            Value::Object(vec![
                named_value("kind", kind("INTERFACE")),
                named_value(
                    "possibleTypes",
                    Value::List(vec![
                        Value::Object(vec![
                            named_value("name", string("User")),
                            named_value("kind", kind("OBJECT")),
                        ]),
                        Value::Object(vec![
                            named_value("name", string("Pet")),
                            named_value("kind", kind("OBJECT")),
                        ]),
                    ]),
                ),
                named_value("interfaces", Value::Null),
            ]),
        ),
        named_value(
            "user",
            Value::Object(vec![
                named_value(
                    "interfaces",
                    Value::List(vec![Value::Object(vec![
                        named_value("name", string("Named")),
                        named_value("fields", Value::List(vec![name("name")])),
                    ])]),
                ),
                named_value("possibleTypes", Value::Null),
            ]),
        ),
        named_value(
            "thing",
            Value::Object(vec![
                named_value("kind", kind("UNION")),
                named_value("possibleTypes", Value::List(vec![name("Item"), name("Pet")])),
                named_value("fields", Value::Null),
            ]),
        ),
        named_value(
            "color",
            Value::Object(vec![
                named_value("kind", kind("ENUM")),
                named_value(
                    "enumValues",
                    Value::List(vec![
                        Value::Object(vec![
                            named_value("name", string("RED")),
                            named_value("isDeprecated", Value::Boolean(false)),
                        ]),
                        Value::Object(vec![
                            named_value("name", string("GREEN")),
                            named_value("isDeprecated", Value::Boolean(false)),
                        ]),
                    ]),
                ),
            ]),
        ),
    ]);
    assert_eq!(result.value, expected);
}

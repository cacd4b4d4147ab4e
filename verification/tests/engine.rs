use graphql_engine::ast::{
    Directive, Document, Field, FragmentDefinition, FragmentSpread, InlineFragment, Operation,
    OperationDefinition, Selection, SelectionSet,
};
use graphql_engine::error::{ExecutionError, GraphQLError};
use graphql_engine::execution::Execution;
use graphql_engine::nesting::group_nests_within;
use graphql_engine::position::Position;
use graphql_engine::query::{
    execute_query, execute_root_selection_set, Query, QueryOptions, QueryResult,
};
use graphql_engine::resolver::Resolver;
use graphql_engine::schema::{
    EnumType, FieldDefinition, InputValue, InterfaceType, ObjectType, ScalarType, SchemaDocument,
    Type, TypeDefinition, UnionType,
};
use graphql_engine::value::Value;
use std::cell::RefCell;
use std::rc::Rc;
use std::sync::Arc;

fn pos(line: usize, column: usize) -> Position {
    Position::new(line, column)
}

fn set(items: Vec<Selection>) -> SelectionSet {
    SelectionSet { span: (pos(1, 1), pos(1, 1)), items }
}

fn field_with(
    name: &str,
    alias: Option<&str>,
    arguments: Vec<(String, Value)>,
    items: Vec<Selection>,
    position: Position,
) -> Field {
    Field {
        position,
        alias: alias.map(|a| a.to_string()),
        name: name.to_string(),
        arguments,
        directives: vec![],
        selection_set: set(items),
    }
}

fn leaf(name: &str) -> Selection {
    Selection::Field(field_with(name, None, vec![], vec![], pos(1, 3)))
}

fn node(name: &str, items: Vec<Selection>) -> Selection {
    Selection::Field(field_with(name, None, vec![], items, pos(1, 3)))
}

fn spread(name: &str) -> Selection {
    Selection::FragmentSpread(FragmentSpread { fragment_name: name.to_string(), directives: vec![] })
}

fn named(name: &str) -> Type {
    Type::NamedType(name.to_string())
}

fn non_null(inner: Type) -> Type {
    Type::NonNullType(Box::new(inner))
}

fn list(inner: Type) -> Type {
    Type::ListType(Box::new(inner))
}

fn def(name: &str, field_type: Type) -> FieldDefinition {
    FieldDefinition { name: name.to_string(), arguments: vec![], field_type }
}

fn def_with(name: &str, arguments: Vec<InputValue>, field_type: Type) -> FieldDefinition {
    FieldDefinition { name: name.to_string(), arguments, field_type }
}

fn object(name: &str, fields: Vec<FieldDefinition>) -> TypeDefinition {
    TypeDefinition::Object(
        ObjectType { name: name.to_string(), implements_interfaces: vec![], fields },
    )
}

fn scalar(name: &str) -> TypeDefinition {
    TypeDefinition::Scalar(ScalarType { name: name.to_string() })
}

fn schema(definitions: Vec<TypeDefinition>) -> SchemaDocument {
    SchemaDocument { definitions }
}

fn document(items: Vec<Selection>, fragments: Vec<FragmentDefinition>) -> Document {
    Document { operations: vec![OperationDefinition::SelectionSet(set(items))], fragments }
}

fn text(s: &str) -> Value {
    Value::String(s.to_string())
}

fn obj(entries: Vec<(&str, Value)>) -> Value {
    Value::Object(entries.into_iter().map(|(k, v)| (k.to_string(), v)).collect())
}

/// A resolver that answers every object field with a fixed value, hands the
/// parent's sub-field back for scalars and enums, and keeps the names of the
/// fields it was asked for.
struct Fixed {
    object: Value,
    asked: Rc<RefCell<Vec<String>>>,
    arguments: Rc<RefCell<Vec<Vec<(String, Value)>>>>,
    picks: Option<String>,
}

impl Fixed {
    fn new(object: Value) -> Fixed {
        Fixed {
            object,
            asked: Rc::new(RefCell::new(vec![])),
            arguments: Rc::new(RefCell::new(vec![])),
            picks: None,
        }
    }
}

impl Resolver for Fixed {
    fn resolve_objects(
        &self,
        _parent: &Option<Value>,
        field: &String,
        _field_definition: &FieldDefinition,
        _object_type: &ObjectType,
        arguments: &Vec<(String, Value)>,
    ) -> Value {
        self.asked.borrow_mut().push(field.clone());
        self.arguments.borrow_mut().push(arguments.clone());
        self.object.clone()
    }

    fn resolve_object(
        &self,
        _parent: &Option<Value>,
        field: &String,
        _field_definition: &FieldDefinition,
        _object_type: &ObjectType,
        arguments: &Vec<(String, Value)>,
    ) -> Value {
        self.asked.borrow_mut().push(field.clone());
        self.arguments.borrow_mut().push(arguments.clone());
        self.object.clone()
    }

    fn resolve_enum_value(&self, _enum_type: &EnumType, value: Option<&Value>) -> Value {
        self.asked.borrow_mut().push("<enum>".to_string());
        value.cloned().unwrap_or(Value::Null)
    }

    fn resolve_scalar_value(&self, _scalar_type: &ScalarType, value: Option<&Value>) -> Value {
        self.asked.borrow_mut().push("<scalar>".to_string());
        value.cloned().unwrap_or(Value::Null)
    }

    fn resolve_enum_values(&self, _enum_type: &EnumType, value: Option<&Value>) -> Value {
        self.asked.borrow_mut().push("<enums>".to_string());
        value.cloned().unwrap_or(Value::Null)
    }

    fn resolve_scalar_values(&self, _scalar_type: &ScalarType, value: Option<&Value>) -> Value {
        self.asked.borrow_mut().push("<scalars>".to_string());
        value.cloned().unwrap_or(Value::Null)
    }

    fn resolve_abstract_type<'a>(
        &self,
        schema: &'a SchemaDocument,
        _abstract_type: &'a TypeDefinition,
        _object_value: &Value,
    ) -> Option<&'a ObjectType> {
        self.asked.borrow_mut().push("<abstract>".to_string());
        let wanted = self.picks.as_ref()?;
        schema.definitions.iter().find_map(|d| match d {
            TypeDefinition::Object(t) if &t.name == wanted => Some(t),
            _ => None,
        })
    }
}

fn meta_schema() -> SchemaDocument {
    schema(vec![
        object("Query", vec![def("__schema", named("__Schema"))]),
        object("__Schema", vec![def("queryType", named("__Type"))]),
        object("__Type", vec![def("name", named("String"))]),
        scalar("String"),
    ])
}

fn run(schema: SchemaDocument, document: Document, resolver: Fixed) -> QueryResult {
    let query = Query { document, schema, variables: None };
    execute_query(&query, QueryOptions { resolver })
}

fn user_schema() -> SchemaDocument {
    schema(vec![
        scalar("String"),
        object("Query", vec![def("user", named("User")), def("name", named("String"))]),
        object("User", vec![def("name", named("String")), def("email", named("String"))]),
    ])
}

#[test]
fn name_of_the_root_value_is_returned() {
    let query = Query {
        document: document(vec![leaf("name")], vec![]),
        schema: schema(vec![scalar("String"), object("Query", vec![def("name", named("String"))])]),
        variables: None,
    };
    let options = QueryOptions { resolver: Fixed::new(Value::Null) };
    let selections = set(vec![leaf("name")]);
    let root = Some(obj(vec![("name", text("Jordi"))]));
    let result = execute_root_selection_set(&query, options, &selections, &root);
    assert_eq!(result.value, obj(vec![("name", text("Jordi"))]));
    assert_eq!(result.errors.len(), 0);
}

#[test]
fn name_of_a_resolved_object_is_returned() {
    let resolver = Fixed::new(obj(vec![("name", text("Jordi"))]));
    let result = run(
        user_schema(),
        document(vec![node("user", vec![leaf("name")])], vec![]),
        resolver,
    );
    assert_eq!(result.value, obj(vec![("user", obj(vec![("name", text("Jordi"))]))]));
    assert_eq!(result.errors.len(), 0);
}

#[test]
fn undeclared_field_is_dropped_without_error() {
    let result = run(
        schema(vec![scalar("String"), object("Query", vec![def("name", named("String"))])]),
        document(vec![leaf("missing")], vec![]),
        Fixed::new(Value::Null),
    );
    assert_eq!(result.value, Value::Object(vec![]));
    assert_eq!(result.errors.len(), 0);
}

#[test]
fn null_for_non_null_field_is_one_error_at_the_field() {
    let schema_doc = schema(vec![
        scalar("String"),
        object("Query", vec![def("user", named("User"))]),
        object(
            "User",
            vec![def("name", non_null(named("String"))), def("email", named("String"))],
        ),
    ]);
    let name = Selection::Field(field_with("name", None, vec![], vec![], pos(4, 9)));
    let result = run(
        schema_doc,
        document(vec![node("user", vec![name, leaf("email")])], vec![]),
        Fixed::new(obj(vec![("email", text("j@example.org"))])),
    );
    assert_eq!(
        result.value,
        obj(vec![("user", obj(vec![("name", Value::Null), ("email", text("j@example.org"))]))])
    );
    assert_eq!(
        result.errors,
        vec![ExecutionError::NonNullError(pos(4, 9), "name".to_string())]
    );
    assert_eq!(result.errors[0].locations(), vec![pos(4, 9)]);
}

#[test]
fn siblings_with_one_key_are_resolved_once_and_merged() {
    let resolver = Fixed::new(obj(vec![("name", text("Jordi")), ("email", text("j@example.org"))]));
    let asked = resolver.asked.clone();
    let arguments = resolver.arguments.clone();
    let schema_doc = schema(vec![
        scalar("String"),
        scalar("ID"),
        object(
            "Query",
            vec![def_with(
                "user",
                vec![InputValue {
                    name: "id".to_string(),
                    value_type: named("ID"),
                    default_value: None,
                }],
                named("User"),
            )],
        ),
        object("User", vec![def("name", named("String")), def("email", named("String"))]),
    ]);
    let first = Selection::Field(field_with(
        "user",
        None,
        vec![("id".to_string(), text("1"))],
        vec![leaf("name")],
        pos(1, 3),
    ));
    let second = Selection::Field(field_with(
        "user",
        None,
        vec![("id".to_string(), text("2"))],
        vec![leaf("email")],
        pos(2, 3),
    ));
    let result = run(schema_doc, document(vec![first, second], vec![]), resolver);
    assert_eq!(
        result.value,
        obj(vec![(
            "user",
            obj(vec![("name", text("Jordi")), ("email", text("j@example.org"))])
        )])
    );
    let objects: Vec<String> =
        asked.borrow().iter().filter(|n| n.as_str() == "user").cloned().collect();
    assert_eq!(objects, vec!["user".to_string()]);
    assert_eq!(*arguments.borrow(), vec![vec![("id".to_string(), text("1"))]]);
}

#[test]
fn fragment_on_another_type_adds_nothing_and_asks_nothing() {
    let resolver = Fixed::new(obj(vec![("name", text("Jordi")), ("email", text("j@example.org"))]));
    let asked = resolver.asked.clone();
    let schema_doc = schema(vec![
        scalar("String"),
        object("Query", vec![def("user", named("User"))]),
        object("User", vec![def("name", named("String")), def("email", named("String"))]),
        object("Item", vec![def("email", named("String"))]),
    ]);
    let fragment = FragmentDefinition {
        name: "ItemParts".to_string(),
        type_condition: "Item".to_string(),
        selection_set: set(vec![leaf("email")]),
    };
    let result = run(
        schema_doc,
        document(vec![node("user", vec![leaf("name"), spread("ItemParts")])], vec![fragment]),
        resolver,
    );
    assert_eq!(result.value, obj(vec![("user", obj(vec![("name", text("Jordi"))]))]));
    assert_eq!(*asked.borrow(), vec!["user".to_string(), "<scalar>".to_string()]);
}

#[test]
fn fragment_on_the_same_type_is_expanded_in_place() {
    let resolver = Fixed::new(obj(vec![("name", text("Jordi")), ("email", text("j@example.org"))]));
    let fragment = FragmentDefinition {
        name: "Parts".to_string(),
        type_condition: "User".to_string(),
        selection_set: set(vec![leaf("email"), spread("Parts")]),
    };
    let result = run(
        user_schema(),
        document(
            vec![node("user", vec![spread("Parts"), leaf("name"), spread("Parts")])],
            vec![fragment],
        ),
        resolver,
    );
    assert_eq!(
        result.value,
        obj(vec![(
            "user",
            obj(vec![("email", text("j@example.org")), ("name", text("Jordi"))])
        )])
    );
    assert_eq!(result.errors.len(), 0);
}

#[test]
fn meta_fields_never_reach_the_user_resolver() {
    let resolver = Fixed::new(obj(vec![("name", text("user data"))]));
    let asked = resolver.asked.clone();
    let result = run(
        user_schema(),
        document(
            vec![node("__schema", vec![node("queryType", vec![leaf("name")])])],
            vec![],
        ),
        resolver,
    );
    assert_eq!(
        result.value,
        obj(vec![(
            "__schema",
            obj(vec![("queryType", obj(vec![("name", text("Query"))]))])
        )])
    );
    assert_eq!(asked.borrow().len(), 0);
    assert_eq!(result.errors.len(), 0);
}

#[test]
fn field_after_a_meta_field_is_resolved_by_the_user_resolver() {
    let resolver = Fixed::new(obj(vec![("name", text("Jordi"))]));
    let asked = resolver.asked.clone();
    let result = run(
        user_schema(),
        document(vec![node("__schema", vec![]), node("user", vec![leaf("name")])], vec![]),
        resolver,
    );
    assert_eq!(
        result.value,
        obj(vec![
            ("__schema", Value::Object(vec![])),
            ("user", obj(vec![("name", text("Jordi"))]))
        ])
    );
    assert_eq!(*asked.borrow(), vec!["user".to_string(), "<scalar>".to_string()]);
}

#[test]
fn missing_required_argument_fails_the_field_only() {
    let schema_doc = schema(vec![
        scalar("String"),
        scalar("ID"),
        object(
            "Query",
            vec![
                def("me", named("User")),
                def_with(
                    "user",
                    vec![InputValue {
                        name: "id".to_string(),
                        value_type: non_null(named("ID")),
                        default_value: None,
                    }],
                    named("User"),
                ),
                def("you", named("User")),
            ],
        ),
        object("User", vec![def("name", named("String"))]),
    ]);
    let user = Selection::Field(field_with("user", None, vec![], vec![leaf("name")], pos(2, 5)));
    let resolver = Fixed::new(obj(vec![("name", text("Jordi"))]));
    let asked = resolver.asked.clone();
    let result = run(
        schema_doc,
        document(
            vec![node("me", vec![leaf("name")]), user, node("you", vec![leaf("name")])],
            vec![],
        ),
        resolver,
    );
    assert_eq!(
        result.value,
        obj(vec![
            ("me", obj(vec![("name", text("Jordi"))])),
            ("user", Value::Null),
            ("you", obj(vec![("name", text("Jordi"))]))
        ])
    );
    assert_eq!(
        result.errors,
        vec![ExecutionError::MissingArgumentError(pos(2, 5), "id".to_string())]
    );
    assert_eq!(
        *asked.borrow(),
        vec!["me".to_string(), "<scalar>".to_string(), "you".to_string(), "<scalar>".to_string()]
    );
}

#[test]
fn omitted_argument_takes_the_default_that_an_explicit_literal_gives() {
    let schema_doc = || {
        schema(vec![
            scalar("String"),
            scalar("Int"),
            object(
                "Query",
                vec![def_with(
                    "users",
                    vec![InputValue {
                        name: "first".to_string(),
                        value_type: named("Int"),
                        default_value: Some(Value::Int(10)),
                    }],
                    named("User"),
                )],
            ),
            object("User", vec![def("name", named("String"))]),
        ])
    };
    let omitted = Fixed::new(obj(vec![]));
    let seen_omitted = omitted.arguments.clone();
    run(
        schema_doc(),
        document(vec![node("users", vec![leaf("name")])], vec![]),
        omitted,
    );
    let explicit = Fixed::new(obj(vec![]));
    let seen_explicit = explicit.arguments.clone();
    let given = Selection::Field(field_with(
        "users",
        None,
        vec![("first".to_string(), Value::Int(10))],
        vec![leaf("name")],
        pos(1, 3),
    ));
    run(schema_doc(), document(vec![given], vec![]), explicit);
    assert_eq!(*seen_omitted.borrow(), vec![vec![("first".to_string(), Value::Int(10))]]);
    assert_eq!(*seen_omitted.borrow(), *seen_explicit.borrow());
}

#[test]
fn execution_restores_its_field_stack_and_keeps_errors_in_order() {
    let schema_doc = schema(vec![
        scalar("String"),
        object("Query", vec![def("a", non_null(named("User"))), def("b", non_null(named("User")))]),
        object("User", vec![def("name", non_null(named("String")))]),
    ]);
    let doc = document(vec![], vec![]);
    let meta = meta_schema();
    let root = match &schema_doc.definitions[1] {
        TypeDefinition::Object(t) => t,
        _ => unreachable!(),
    };
    let mut execution = Execution::new(
        &schema_doc,
        &meta,
        &doc,
        Arc::new(Fixed::new(obj(vec![]))),
        Arc::new(Fixed::new(Value::Null)),
    );
    let a_name = Selection::Field(field_with("name", None, vec![], vec![], pos(1, 7)));
    let b_name = Selection::Field(field_with("name", None, vec![], vec![], pos(2, 7)));
    let selections = set(vec![node("a", vec![a_name]), node("b", vec![b_name])]);
    let value = execution.execute_selection_set(&selections, root, &None);
    assert_eq!(
        value,
        obj(vec![("a", obj(vec![("name", Value::Null)])), ("b", obj(vec![("name", Value::Null)]))])
    );
    assert_eq!(
        execution.errors,
        vec![
            ExecutionError::NonNullError(pos(1, 7), "name".to_string()),
            ExecutionError::NonNullError(pos(2, 7), "name".to_string())
        ]
    );
    assert_eq!(execution.fields.len(), 0);
    assert!(!execution.introspecting);
}

#[test]
fn inline_fragment_fails_the_selection_set() {
    let inline = Selection::InlineFragment(InlineFragment { directives: vec![] });
    let result = run(
        user_schema(),
        document(vec![leaf("name"), inline], vec![]),
        Fixed::new(Value::Null),
    );
    assert_eq!(result.value, Value::Null);
    assert_eq!(
        result.errors,
        vec![ExecutionError::NotSupported("Inline fragments are not supported".to_string())]
    );
}

#[test]
fn skipped_inline_fragment_is_passed_over() {
    let skip = Directive {
        name: "skip".to_string(),
        arguments: vec![("if".to_string(), Value::Boolean(true))],
    };
    let inline = Selection::InlineFragment(InlineFragment { directives: vec![skip] });
    let result = run(
        user_schema(),
        document(vec![inline, leaf("missing")], vec![]),
        Fixed::new(Value::Null),
    );
    assert_eq!(result.value, Value::Object(vec![]));
    assert_eq!(result.errors.len(), 0);
}

#[test]
fn list_of_objects_is_completed_item_by_item() {
    let schema_doc = schema(vec![
        scalar("String"),
        object("Query", vec![def("users", list(non_null(named("User"))))]),
        object("User", vec![def("name", named("String"))]),
    ]);
    let resolver = Fixed::new(Value::List(vec![
        obj(vec![("name", text("Jordi"))]),
        obj(vec![("name", text("Jannis"))]),
    ]));
    let asked = resolver.asked.clone();
    let result = run(
        schema_doc,
        document(vec![node("users", vec![leaf("name")])], vec![]),
        resolver,
    );
    assert_eq!(
        result.value,
        obj(vec![(
            "users",
            Value::List(vec![obj(vec![("name", text("Jordi"))]), obj(vec![("name", text("Jannis"))])])
        )])
    );
    assert_eq!(
        *asked.borrow(),
        vec!["users".to_string(), "<scalar>".to_string(), "<scalar>".to_string()]
    );
}

#[test]
fn null_item_of_a_non_null_list_fails_the_whole_list() {
    let schema_doc = schema(vec![
        scalar("String"),
        object("Query", vec![def("users", list(non_null(named("User"))))]),
        object("User", vec![def("name", named("String"))]),
    ]);
    let resolver = Fixed::new(Value::List(vec![obj(vec![("name", text("Jordi"))]), Value::Null]));
    let users = Selection::Field(field_with("users", None, vec![], vec![leaf("name")], pos(3, 4)));
    let result = run(schema_doc, document(vec![users], vec![]), resolver);
    assert_eq!(result.value, obj(vec![("users", Value::Null)]));
    assert_eq!(
        result.errors,
        vec![ExecutionError::NonNullError(pos(3, 4), "users".to_string())]
    );
}

#[test]
fn value_that_is_no_list_fails_a_list_field() {
    let schema_doc = schema(vec![
        scalar("String"),
        object("Query", vec![def("users", list(named("User")))]),
        object("User", vec![def("name", named("String"))]),
    ]);
    let users = Selection::Field(field_with("users", None, vec![], vec![leaf("name")], pos(5, 6)));
    let result = run(
        schema_doc,
        document(vec![users], vec![]),
        Fixed::new(text("no list")),
    );
    assert_eq!(result.value, obj(vec![("users", Value::Null)]));
    assert_eq!(
        result.errors,
        vec![ExecutionError::ListValueError(pos(5, 6), "users".to_string())]
    );
}

#[test]
fn unknown_named_type_fails_the_field() {
    let schema_doc = schema(vec![object("Query", vec![def("user", named("Ghost"))])]);
    let result = run(
        schema_doc,
        document(vec![node("user", vec![])], vec![]),
        Fixed::new(Value::Null),
    );
    assert_eq!(result.value, obj(vec![("user", Value::Null)]));
    assert_eq!(result.errors, vec![ExecutionError::NamedTypeError("Ghost".to_string())]);
}

#[test]
fn field_of_an_interface_type_is_not_resolved() {
    let schema_doc = schema(vec![
        object("Query", vec![def("node", named("Node")), def("nodes", list(list(named("Node"))))]),
        TypeDefinition::Interface(InterfaceType { name: "Node".to_string(), fields: vec![] }),
    ]);
    let result = run(
        schema_doc,
        document(vec![node("node", vec![]), node("nodes", vec![])], vec![]),
        Fixed::new(Value::Null),
    );
    assert_eq!(result.value, obj(vec![("node", Value::Null), ("nodes", Value::Null)]));
    assert_eq!(
        result.errors,
        vec![
            ExecutionError::NotSupported(
                "Only fields of object, enum and scalar types can be resolved".to_string()
            ),
            ExecutionError::NotSupported("Lists of lists are not supported".to_string())
        ]
    );
}

fn union_schema() -> SchemaDocument {
    schema(vec![
        scalar("String"),
        object("Query", vec![]),
        object("User", vec![def("name", named("String"))]),
        TypeDefinition::Union(
            UnionType { name: "Owner".to_string(), types: vec!["User".to_string()] },
        ),
        TypeDefinition::Interface(InterfaceType {
            name: "Named".to_string(),
            fields: vec![def("name", named("String"))],
        }),
        TypeDefinition::Enum(EnumType { name: "Color".to_string(), values: vec![] }),
        TypeDefinition::InputObject(graphql_engine::schema::InputObjectType {
            name: "Filter".to_string(),
        }),
    ])
}

fn owner_document() -> Document {
    document(vec![], vec![FragmentDefinition {
        name: "OwnerParts".to_string(),
        type_condition: "Owner".to_string(),
        selection_set: set(vec![leaf("name")]),
    }])
}

#[test]
fn value_of_a_union_is_completed_as_the_picked_object_type() {
    let schema_doc = union_schema();
    let doc = owner_document();
    let meta = meta_schema();
    let mut picking = Fixed::new(Value::Null);
    picking.picks = Some("User".to_string());
    let asked = picking.asked.clone();
    let mut execution =
        Execution::new(&schema_doc, &meta, &doc, Arc::new(picking), Arc::new(Fixed::new(Value::Null)));
    let owner = field_with("owner", None, vec![], vec![spread("OwnerParts")], pos(1, 3));
    let fields = vec![owner.clone()];
    assert!(group_nests_within(&doc, &fields, 2));
    assert!(!group_nests_within(&doc, &fields, 1));
    assert!(!group_nests_within(&doc, &vec![], 5));
    let merged = Execution::<Fixed, Fixed>::merge_selection_sets(&fields);
    assert_eq!(merged.items, vec![spread("OwnerParts")]);
    let owner_type = named("Owner");
    let completed = execution.complete_value(
        &owner,
        &owner_type,
        &fields,
        obj(vec![("name", text("Jordi"))]),
    );
    assert_eq!(completed, Ok(obj(vec![("name", text("Jordi"))])));
    assert_eq!(*asked.borrow(), vec!["<abstract>".to_string(), "<scalar>".to_string()]);
    assert_eq!(execution.errors.len(), 0);

    let picked = execution.resolve_abstract_type(&schema_doc.definitions[3], &obj(vec![]));
    assert_eq!(picked.0.map(|t| t.name.clone()), Ok("User".to_string()));
}

#[test]
fn value_of_an_interface_that_no_type_is_picked_for_fails() {
    let schema_doc = union_schema();
    let doc = owner_document();
    let meta = meta_schema();
    let mut refusing = Execution::new(
        &schema_doc,
        &meta,
        &doc,
        Arc::new(Fixed::new(Value::Null)),
        Arc::new(Fixed::new(Value::Null)),
    );
    let refused = refusing.resolve_abstract_type(&schema_doc.definitions[3], &obj(vec![]));
    assert_eq!(
        refused.0.map(|t| t.name.clone()),
        Err(ExecutionError::AbstractTypeError("Owner".to_string()))
    );
    let node = field_with("node", None, vec![], vec![leaf("name")], pos(1, 3));
    let fields = vec![node.clone()];
    let named_type = named("Named");
    assert_eq!(
        refusing.complete_value(&node, &named_type, &fields, obj(vec![])),
        Err(ExecutionError::AbstractTypeError("Named".to_string()))
    );
    assert_eq!(refusing.errors.len(), 0);
}

#[test]
fn values_are_completed_by_the_kind_of_their_type() {
    let schema_doc = union_schema();
    let doc = owner_document();
    let meta = meta_schema();
    let mut execution = Execution::new(
        &schema_doc,
        &meta,
        &doc,
        Arc::new(Fixed::new(Value::Null)),
        Arc::new(Fixed::new(Value::Null)),
    );
    let f = field_with("f", None, vec![], vec![leaf("name"), leaf("other")], pos(8, 1));
    let fields = vec![f.clone()];
    let string = named("String");
    let color = named("Color");
    let filter = named("Filter");
    let ghost = named("Ghost");
    let user = named("User");
    let strict = non_null(named("String"));
    let strings = list(non_null(named("String")));
    let users = non_null(list(named("User")));
    assert_eq!(execution.complete_value(&f, &string, &fields, Value::Int(3)), Ok(Value::Int(3)));
    assert_eq!(execution.complete_value(&f, &color, &fields, text("x")), Ok(text("x")));
    assert_eq!(execution.complete_value(&f, &ghost, &fields, Value::Null), Ok(Value::Null));
    assert_eq!(
        execution.complete_value(&f, &ghost, &fields, text("x")),
        Err(ExecutionError::NamedTypeError("Ghost".to_string()))
    );
    assert_eq!(
        execution.complete_value(&f, &filter, &fields, text("x")),
        Err(ExecutionError::NotSupported(
            "Values of input object types cannot be completed".to_string()
        ))
    );
    assert_eq!(
        execution.complete_value(&f, &strict, &fields, Value::Null),
        Err(ExecutionError::NonNullError(pos(8, 1), "f".to_string()))
    );
    assert_eq!(execution.complete_value(&f, &strict, &fields, text("x")), Ok(text("x")));
    assert_eq!(
        execution.complete_value(&f, &strings, &fields, Value::List(vec![text("a"), text("b")])),
        Ok(Value::List(vec![text("a"), text("b")]))
    );
    assert_eq!(
        execution.complete_value(&f, &strings, &fields, Value::List(vec![text("a"), Value::Null])),
        Err(ExecutionError::NonNullError(pos(8, 1), "f".to_string()))
    );
    assert_eq!(
        execution.complete_value(&f, &strings, &fields, text("a")),
        Err(ExecutionError::ListValueError(pos(8, 1), "f".to_string()))
    );
    assert_eq!(execution.complete_value(&f, &strings, &fields, Value::Null), Ok(Value::Null));
    assert_eq!(
        execution.complete_value(&f, &users, &fields, Value::Null),
        Err(ExecutionError::NonNullError(pos(8, 1), "f".to_string()))
    );
    assert_eq!(
        execution.complete_value(
            &f,
            &users,
            &fields,
            Value::List(vec![obj(vec![("name", text("Jordi"))]), Value::Null])
        ),
        Ok(Value::List(vec![obj(vec![("name", text("Jordi"))]), Value::Null]))
    );
    assert_eq!(
        execution.complete_value(&f, &user, &fields, obj(vec![("other", text("kept out"))])),
        Ok(obj(vec![("name", Value::Null)]))
    );
    assert_eq!(execution.errors.len(), 0);
    assert_eq!(execution.fields.len(), 0);
}

#[test]
fn field_is_executed_with_its_group() {
    let schema_doc = user_schema();
    let doc = document(vec![], vec![]);
    let meta = meta_schema();
    let resolver = Fixed::new(obj(vec![("name", text("Jordi")), ("email", text("j@example.org"))]));
    let asked = resolver.asked.clone();
    let mut execution =
        Execution::new(&schema_doc, &meta, &doc, Arc::new(resolver), Arc::new(Fixed::new(Value::Null)));
    let root = match &schema_doc.definitions[1] {
        TypeDefinition::Object(t) => t,
        _ => unreachable!(),
    };
    let first = field_with("user", None, vec![], vec![leaf("email")], pos(1, 3));
    let second = field_with("user", None, vec![], vec![leaf("name"), leaf("email")], pos(2, 3));
    let fields = vec![first.clone(), second];
    let (definition, under_meta) = execution.get_field_type(root, &"user".to_string()).unwrap();
    assert!(!under_meta);
    let executed = execution.execute_field(root, &None, &first, definition, &fields);
    assert_eq!(
        executed,
        Ok(obj(vec![("email", text("j@example.org")), ("name", text("Jordi"))]))
    );
    assert_eq!(
        *asked.borrow(),
        vec!["user".to_string(), "<scalar>".to_string(), "<scalar>".to_string()]
    );
    let (_, meta_field) = execution.get_field_type(root, &"__schema".to_string()).unwrap();
    assert!(meta_field);
    assert_eq!(execution.get_field_type(root, &"nothing".to_string()), None);
    let user = match &schema_doc.definitions[2] {
        TypeDefinition::Object(t) => t,
        _ => unreachable!(),
    };
    assert_eq!(execution.get_field_type(user, &"__schema".to_string()), None);
}

#[test]
fn document_without_a_single_query_fails_as_a_whole() {
    let empty = Document { operations: vec![], fragments: vec![] };
    let result = run(user_schema(), empty, Fixed::new(Value::Null));
    assert_eq!(result.value, Value::Null);
    assert_eq!(result.errors, vec![ExecutionError::OperationNameRequired]);

    let mutation = Document {
        operations: vec![OperationDefinition::Mutation(
            Operation { name: None, selection_set: set(vec![leaf("name")]) },
        )],
        fragments: vec![],
    };
    let result = run(user_schema(), mutation, Fixed::new(Value::Null));
    assert_eq!(result.value, Value::Null);
    assert_eq!(
        result.errors,
        vec![ExecutionError::NotSupported("Only queries are supported".to_string())]
    );

    let no_root = run(
        schema(vec![scalar("String")]),
        document(vec![leaf("name")], vec![]),
        Fixed::new(Value::Null),
    );
    assert_eq!(no_root.value, Value::Null);
    assert_eq!(no_root.errors, vec![ExecutionError::NoRootQueryObjectType]);
}

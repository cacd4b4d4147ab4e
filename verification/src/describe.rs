//! The resolver of the meta-fields: what a schema says of itself.
//!
//! A type is described by an object with the fields of `__Type`. Where a type
//! is only referred to, as the type of a field or a member of a union, the
//! object holds its kind and its name, and the whole description takes its
//! place when the reference is resolved. Descriptions and deprecations are
//! not part of a schema here: they are `Null` and `false`.
use vstd::prelude::*;
use crate::resolver::{optional_model, Answer, Request, Resolver};
use crate::schema::{
    get_named_type, get_type_name, EnumType, FieldDefinition,
    FieldDefinitionModel, InputValue, InputValueModel, ObjectType, ObjectTypeModel, ScalarType,
    SchemaDocument, SchemaModel, Type, TypeDefinition, TypeDefinitionModel, TypeModel,
};
use crate::semantics::sub_field;
use crate::util::{contains_name, models, text_is};
use crate::value::{entries_view, entry_value, values_view, Value, ValueModel};

verus! {

/// The object with three entries.
pub open spec fn object3(
    a: (Seq<char>, ValueModel),
    b: (Seq<char>, ValueModel),
    c: (Seq<char>, ValueModel),
) -> ValueModel {
    ValueModel::Object(seq![a, b, c])
}

/// The name of the kind of a type definition.
pub open spec fn kind_of(definition: TypeDefinitionModel) -> Seq<char> {
    match definition {
        TypeDefinitionModel::Scalar(_) => "SCALAR"@,
        TypeDefinitionModel::Object(_) => "OBJECT"@,
        TypeDefinitionModel::Interface(_) => "INTERFACE"@,
        TypeDefinitionModel::Union(_) => "UNION"@,
        TypeDefinitionModel::Enum(_) => "ENUM"@,
        TypeDefinitionModel::InputObject(_) => "INPUT_OBJECT"@,
    }
}

/// The kind of the type named `name`: `Null` where the schema has no such
/// type.
pub open spec fn kind_named(schema: SchemaModel, name: Seq<char>) -> ValueModel {
    match schema.named_type(name) {
        Some(definition) => ValueModel::Enum(kind_of(definition)),
        None => ValueModel::Null,
    }
}

/// The reference to a declared type: its kind, its name where it has one, and
/// the reference to the type inside where it is a wrapper.
pub open spec fn reference(schema: SchemaModel, ty: TypeModel) -> ValueModel
    decreases ty,
{
    match ty {
        TypeModel::NonNullType(inner) => object3(
            ("kind"@, ValueModel::Enum("NON_NULL"@)),
            ("name"@, ValueModel::Null),
            ("ofType"@, reference(schema, *inner)),
        ),
        TypeModel::ListType(inner) => object3(
            ("kind"@, ValueModel::Enum("LIST"@)),
            ("name"@, ValueModel::Null),
            ("ofType"@, reference(schema, *inner)),
        ),
        TypeModel::NamedType(name) => object3(
            ("kind"@, kind_named(schema, name)),
            ("name"@, ValueModel::String(name)),
            ("ofType"@, ValueModel::Null),
        ),
    }
}

/// The references to the types of the given names.
pub open spec fn references(schema: SchemaModel, names: Seq<Seq<char>>) -> Seq<ValueModel> {
    Seq::new(names.len(), |i: int| reference(schema, TypeModel::NamedType(names[i])))
}

/// The description of an argument.
pub open spec fn argument_description(schema: SchemaModel, argument: InputValueModel) -> ValueModel {
    ValueModel::Object(
        seq![
            ("name"@, ValueModel::String(argument.name)),
            ("description"@, ValueModel::Null),
            ("type"@, reference(schema, argument.value_type)),
            ("defaultValue"@, ValueModel::Null),
        ],
    )
}

/// The descriptions of arguments.
pub open spec fn argument_descriptions(
    schema: SchemaModel,
    arguments: Seq<InputValueModel>,
) -> Seq<ValueModel> {
    Seq::new(arguments.len(), |i: int| argument_description(schema, arguments[i]))
}

/// The description of a field.
pub open spec fn field_description(schema: SchemaModel, field: FieldDefinitionModel) -> ValueModel {
    ValueModel::Object(
        seq![
            ("name"@, ValueModel::String(field.name)),
            ("description"@, ValueModel::Null),
            ("args"@, ValueModel::List(argument_descriptions(schema, field.arguments))),
            ("type"@, reference(schema, field.field_type)),
            ("isDeprecated"@, ValueModel::Boolean(false)),
            ("deprecationReason"@, ValueModel::Null),
        ],
    )
}

/// The descriptions of fields.
pub open spec fn field_descriptions(
    schema: SchemaModel,
    fields: Seq<FieldDefinitionModel>,
) -> Seq<ValueModel> {
    Seq::new(fields.len(), |i: int| field_description(schema, fields[i]))
}

/// The description of a value of an enum.
pub open spec fn enum_value_description(name: Seq<char>) -> ValueModel {
    ValueModel::Object(
        seq![
            ("name"@, ValueModel::String(name)),
            ("description"@, ValueModel::Null),
            ("isDeprecated"@, ValueModel::Boolean(false)),
            ("deprecationReason"@, ValueModel::Null),
        ],
    )
}

/// The descriptions of the values of an enum.
pub open spec fn enum_value_descriptions(names: Seq<Seq<char>>) -> Seq<ValueModel> {
    Seq::new(names.len(), |i: int| enum_value_description(names[i]))
}

/// The fields in the description of a type: those of an object or interface
/// type, `Null` for any other.
pub open spec fn described_fields(schema: SchemaModel, definition: TypeDefinitionModel) -> ValueModel {
    match definition {
        TypeDefinitionModel::Object(t) => ValueModel::List(field_descriptions(schema, t.fields)),
        TypeDefinitionModel::Interface(t) => ValueModel::List(
            field_descriptions(schema, t.fields),
        ),
        _ => ValueModel::Null,
    }
}

/// The interfaces in the description of a type: those that an object type
/// implements, `Null` for any other.
pub open spec fn described_interfaces(
    schema: SchemaModel,
    definition: TypeDefinitionModel,
) -> ValueModel {
    match definition {
        TypeDefinitionModel::Object(t) => ValueModel::List(
            references(schema, t.implements_interfaces),
        ),
        _ => ValueModel::Null,
    }
}

/// The references to the object types among the first `upto` types of the
/// schema that implement the interface named `name`, in the order of the
/// schema.
pub open spec fn implementers(schema: SchemaModel, name: Seq<char>, upto: int) -> Seq<ValueModel>
    decreases upto,
{
    if upto <= 0 {
        Seq::empty()
    } else {
        let before = implementers(schema, name, upto - 1);
        match schema.definitions[upto - 1] {
            TypeDefinitionModel::Object(t) => if t.implements_interfaces.contains(name) {
                before.push(reference(schema, TypeModel::NamedType(t.name)))
            } else {
                before
            },
            _ => before,
        }
    }
}

/// The possible types in the description of a type: the members of a union,
/// the object types that implement an interface, `Null` for any other.
pub open spec fn described_members(schema: SchemaModel, definition: TypeDefinitionModel) -> ValueModel {
    match definition {
        TypeDefinitionModel::Union(t) => ValueModel::List(references(schema, t.types)),
        TypeDefinitionModel::Interface(t) => ValueModel::List(
            implementers(schema, t.name, schema.definitions.len() as int),
        ),
        _ => ValueModel::Null,
    }
}

/// The values in the description of a type: those of an enum, `Null` for any
/// other.
pub open spec fn described_values(definition: TypeDefinitionModel) -> ValueModel {
    match definition {
        TypeDefinitionModel::Enum(t) => ValueModel::List(enum_value_descriptions(t.values)),
        _ => ValueModel::Null,
    }
}

/// The description of a type.
pub open spec fn type_description(schema: SchemaModel, definition: TypeDefinitionModel) -> ValueModel {
    ValueModel::Object(
        seq![
            ("kind"@, ValueModel::Enum(kind_of(definition))),
            ("name"@, ValueModel::String(definition.name())),
            ("description"@, ValueModel::Null),
            ("fields"@, described_fields(schema, definition)),
            ("interfaces"@, described_interfaces(schema, definition)),
            ("possibleTypes"@, described_members(schema, definition)),
            ("enumValues"@, described_values(definition)),
            ("inputFields"@, ValueModel::Null),
            ("ofType"@, ValueModel::Null),
        ],
    )
}

/// The description of the type named `name`: `Null` where the schema has no
/// such type.
pub open spec fn description_named(schema: SchemaModel, name: Seq<char>) -> ValueModel {
    match schema.named_type(name) {
        Some(definition) => type_description(schema, definition),
        None => ValueModel::Null,
    }
}

/// The descriptions of the first `upto` types of the schema.
pub open spec fn type_descriptions(schema: SchemaModel, upto: int) -> Seq<ValueModel> {
    Seq::new(upto as nat, |i: int| type_description(schema, schema.definitions[i]))
}

/// The description of a schema: its types, its root types by their names and
/// no directives.
pub open spec fn schema_description(schema: SchemaModel) -> ValueModel {
    ValueModel::Object(
        seq![
            ("types"@, ValueModel::List(type_descriptions(schema, schema.definitions.len() as int))),
            ("queryType"@, description_named(schema, "Query"@)),
            ("mutationType"@, description_named(schema, "Mutation"@)),
            ("subscriptionType"@, description_named(schema, "Subscription"@)),
            ("directives"@, ValueModel::List(Seq::empty())),
        ],
    )
}

/// What stands in the place of a reference once it is resolved: the
/// description of the type that an object names, and any other value as it
/// is.
pub open spec fn resolved_reference(schema: SchemaModel, value: ValueModel) -> ValueModel {
    match value {
        ValueModel::Object(entries) => match entry_value(entries, "name"@) {
            Some(ValueModel::String(name)) => match schema.named_type(name) {
                Some(definition) => type_description(schema, definition),
                None => value,
            },
            _ => value,
        },
        _ => value,
    }
}

/// The references of a list, resolved one by one.
pub open spec fn resolved_references(schema: SchemaModel, values: Seq<ValueModel>) -> Seq<
    ValueModel,
> {
    Seq::new(values.len(), |i: int| resolved_reference(schema, values[i]))
}

/// What the meta-field resolver answers when it is asked for an object.
pub open spec fn described_object(
    schema: SchemaModel,
    parent: Option<ValueModel>,
    field: Seq<char>,
    object_type: ObjectTypeModel,
    arguments: Seq<(Seq<char>, ValueModel)>,
) -> ValueModel {
    if field == "__schema"@ {
        schema_description(schema)
    } else if field == "__type"@ {
        match entry_value(arguments, "name"@) {
            Some(ValueModel::String(name)) => description_named(schema, name),
            _ => ValueModel::Null,
        }
    } else {
        match sub_field(parent, field) {
            Some(Some(value)) => if object_type.name == "__Type"@ {
                resolved_reference(schema, value)
            } else {
                value
            },
            _ => ValueModel::Null,
        }
    }
}

/// What the meta-field resolver answers when it is asked for a list of
/// objects.
pub open spec fn described_objects(
    schema: SchemaModel,
    parent: Option<ValueModel>,
    field: Seq<char>,
    object_type: ObjectTypeModel,
) -> ValueModel {
    match sub_field(parent, field) {
        Some(Some(ValueModel::List(items))) => if object_type.name == "__Type"@ {
            ValueModel::List(resolved_references(schema, items))
        } else {
            ValueModel::List(items)
        },
        Some(Some(value)) => value,
        _ => ValueModel::Null,
    }
}

/// What the meta-field resolver answers when it is asked for a scalar or an
/// enum value: the value it is given, or `Null`.
pub open spec fn described_leaf(value: Option<ValueModel>) -> ValueModel {
    match value {
        Some(v) => v,
        None => ValueModel::Null,
    }
}

/// What the meta-field resolver answers to a request.
pub open spec fn described(schema: SchemaModel, request: Request) -> Answer {
    match request {
        Request::Object { parent, field, definition, object_type, arguments } => Answer::Value(
            described_object(schema, parent, field, object_type, arguments),
        ),
        Request::Objects { parent, field, definition, object_type, arguments } => Answer::Value(
            described_objects(schema, parent, field, object_type),
        ),
        Request::EnumValue { enum_type, value } => Answer::Value(described_leaf(value)),
        Request::ScalarValue { scalar_type, value } => Answer::Value(described_leaf(value)),
        Request::EnumValues { enum_type, value } => Answer::Value(described_leaf(value)),
        Request::ScalarValues { scalar_type, value } => Answer::Value(described_leaf(value)),
        Request::AbstractType { schema: _, abstract_type, object_value } => Answer::ObjectType(
            None,
        ),
    }
}

/// Makes a named value.
fn entry(name: &str, value: Value) -> (made: (String, Value))
    ensures
        made.0@ == name@,
        made.1@ == value@,
{
    (name.to_owned(), value)
}

/// Makes an object of its entries.
fn object_of(entries: Vec<(String, Value)>) -> (made: Value)
    ensures
        made@ == ValueModel::Object(entries_view(entries@)),
{
    proof {
        Value::lemma_object_view(entries);
    }
    Value::Object(entries)
}

/// Makes a list of its items.
fn list_of(items: Vec<Value>) -> (made: Value)
    ensures
        made@ == ValueModel::List(values_view(items@)),
{
    proof {
        Value::lemma_list_view(items);
    }
    Value::List(items)
}

/// Makes the kind of a type definition.
fn make_kind(definition: &TypeDefinition) -> (made: Value)
    ensures
        made@ == ValueModel::Enum(kind_of(definition@)),
{
    let name = match definition {
        TypeDefinition::Scalar(_) => "SCALAR",
        TypeDefinition::Object(_) => "OBJECT",
        TypeDefinition::Interface(_) => "INTERFACE",
        TypeDefinition::Union(_) => "UNION",
        TypeDefinition::Enum(_) => "ENUM",
        TypeDefinition::InputObject(_) => "INPUT_OBJECT",
    };
    Value::Enum(name.to_owned())
}

/// Makes the reference to a declared type.
fn make_reference(schema: &SchemaDocument, ty: &Type) -> (made: Value)
    ensures
        made@ == reference(schema@, ty@),
    decreases ty,
{
    let mut entries: Vec<(String, Value)> = Vec::new();
    match ty {
        Type::NonNullType(inner) => {
            entries.push(entry("kind", Value::Enum("NON_NULL".to_owned())));
            entries.push(entry("name", Value::Null));
            entries.push(entry("ofType", make_reference(schema, inner)));
        },
        Type::ListType(inner) => {
            entries.push(entry("kind", Value::Enum("LIST".to_owned())));
            entries.push(entry("name", Value::Null));
            entries.push(entry("ofType", make_reference(schema, inner)));
        },
        Type::NamedType(name) => {
            let kind = match get_named_type(schema, name) {
                Some(definition) => make_kind(definition),
                None => Value::Null,
            };
            entries.push(entry("kind", kind));
            entries.push(entry("name", Value::String(name.clone())));
            entries.push(entry("ofType", Value::Null));
        },
    }
    let made = object_of(entries);
    assert(made@->Object_0 =~= reference(schema@, ty@)->Object_0);
    made
}

/// Makes the references to the types of the given names.
fn make_references(schema: &SchemaDocument, names: &Vec<String>) -> (made: Value)
    ensures
        made@ == ValueModel::List(references(schema@, models(names@))),
{
    let mut items: Vec<Value> = Vec::new();
    let mut i: usize = 0;
    while i < names.len()
        invariant
            i <= names.len(),
            items.len() == i,
            forall|j: int|
                0 <= j < i ==> (#[trigger] items[j])@ == reference(
                    schema@,
                    TypeModel::NamedType(names[j]@),
                ),
        decreases names.len() - i,
    {
        let named = Type::NamedType(names[i].clone());
        items.push(make_reference(schema, &named));
        i += 1;
    }
    let made = list_of(items);
    assert(values_view(items@) =~= references(schema@, models(names@)));
    made
}

/// Makes the references to the object types that implement the interface
/// named `name`.
fn make_implementers(schema: &SchemaDocument, name: &String) -> (made: Value)
    ensures
        made@ == ValueModel::List(implementers(schema@, name@, schema@.definitions.len() as int)),
{
    let mut items: Vec<Value> = Vec::new();
    let mut i: usize = 0;
    assert(values_view(items@) =~= implementers(schema@, name@, 0));
    while i < schema.definitions.len()
        invariant
            i <= schema.definitions.len(),
            values_view(items@) == implementers(schema@, name@, i as int),
        decreases schema.definitions.len() - i,
    {
        let ghost before = values_view(items@);
        assert(schema@.definitions[i as int] == schema.definitions[i as int]@);
        match &schema.definitions[i] {
            TypeDefinition::Object(t) => {
                if contains_name(&t.implements_interfaces, name) {
                    let named = Type::NamedType(t.name.clone());
                    let item = make_reference(schema, &named);
                    items.push(item);
                    assert(values_view(items@) =~= before.push(item@));
                }
            },
            _ => {},
        }
        i += 1;
    }
    list_of(items)
}

/// Makes the description of an argument.
fn describe_argument(schema: &SchemaDocument, argument: &InputValue) -> (made: Value)
    ensures
        made@ == argument_description(schema@, argument@),
{
    let mut entries: Vec<(String, Value)> = Vec::new();
    entries.push(entry("name", Value::String(argument.name.clone())));
    entries.push(entry("description", Value::Null));
    entries.push(entry("type", make_reference(schema, &argument.value_type)));
    entries.push(entry("defaultValue", Value::Null));
    let made = object_of(entries);
    assert(made@->Object_0 =~= argument_description(schema@, argument@)->Object_0);
    made
}

/// Makes the description of a field.
fn describe_field(schema: &SchemaDocument, field: &FieldDefinition) -> (made: Value)
    ensures
        made@ == field_description(schema@, field@),
{
    let mut arguments: Vec<Value> = Vec::new();
    let mut i: usize = 0;
    while i < field.arguments.len()
        invariant
            i <= field.arguments.len(),
            arguments.len() == i,
            forall|j: int|
                0 <= j < i ==> (#[trigger] arguments[j])@ == argument_description(
                    schema@,
                    field.arguments[j]@,
                ),
        decreases field.arguments.len() - i,
    {
        arguments.push(describe_argument(schema, &field.arguments[i]));
        i += 1;
    }
    let described = list_of(arguments);
    assert(values_view(arguments@) =~= argument_descriptions(schema@, field@.arguments));
    let mut entries: Vec<(String, Value)> = Vec::new();
    entries.push(entry("name", Value::String(field.name.clone())));
    entries.push(entry("description", Value::Null));
    entries.push(entry("args", described));
    entries.push(entry("type", make_reference(schema, &field.field_type)));
    entries.push(entry("isDeprecated", Value::Boolean(false)));
    entries.push(entry("deprecationReason", Value::Null));
    let made = object_of(entries);
    assert(made@->Object_0 =~= field_description(schema@, field@)->Object_0);
    made
}

/// Makes the descriptions of fields.
fn describe_fields(schema: &SchemaDocument, fields: &Vec<FieldDefinition>) -> (made: Value)
    ensures
        made@ == ValueModel::List(field_descriptions(schema@, models(fields@))),
{
    let mut items: Vec<Value> = Vec::new();
    let mut i: usize = 0;
    while i < fields.len()
        invariant
            i <= fields.len(),
            items.len() == i,
            forall|j: int|
                0 <= j < i ==> (#[trigger] items[j])@ == field_description(schema@, fields[j]@),
        decreases fields.len() - i,
    {
        items.push(describe_field(schema, &fields[i]));
        i += 1;
    }
    let made = list_of(items);
    assert(values_view(items@) =~= field_descriptions(schema@, models(fields@)));
    made
}

/// Makes the descriptions of the values of an enum.
fn describe_enum_values(names: &Vec<String>) -> (made: Value)
    ensures
        made@ == ValueModel::List(enum_value_descriptions(models(names@))),
{
    let mut items: Vec<Value> = Vec::new();
    let mut i: usize = 0;
    while i < names.len()
        invariant
            i <= names.len(),
            items.len() == i,
            forall|j: int|
                0 <= j < i ==> (#[trigger] items[j])@ == enum_value_description(names[j]@),
        decreases names.len() - i,
    {
        let mut entries: Vec<(String, Value)> = Vec::new();
        entries.push(entry("name", Value::String(names[i].clone())));
        entries.push(entry("description", Value::Null));
        entries.push(entry("isDeprecated", Value::Boolean(false)));
        entries.push(entry("deprecationReason", Value::Null));
        let item = object_of(entries);
        assert(item@->Object_0 =~= enum_value_description(names[i as int]@)->Object_0);
        items.push(item);
        i += 1;
    }
    let made = list_of(items);
    assert(values_view(items@) =~= enum_value_descriptions(models(names@)));
    made
}

/// Makes the description of a type.
pub fn describe_type(schema: &SchemaDocument, definition: &TypeDefinition) -> (made: Value)
    ensures
        made@ == type_description(schema@, definition@),
{
    let fields = match definition {
        TypeDefinition::Object(t) => describe_fields(schema, &t.fields),
        TypeDefinition::Interface(t) => describe_fields(schema, &t.fields),
        _ => Value::Null,
    };
    let interfaces = match definition {
        TypeDefinition::Object(t) => make_references(schema, &t.implements_interfaces),
        _ => Value::Null,
    };
    let members = match definition {
        TypeDefinition::Union(t) => make_references(schema, &t.types),
        TypeDefinition::Interface(t) => make_implementers(schema, &t.name),
        _ => Value::Null,
    };
    let values = match definition {
        TypeDefinition::Enum(t) => describe_enum_values(&t.values),
        _ => Value::Null,
    };
    let mut entries: Vec<(String, Value)> = Vec::new();
    entries.push(entry("kind", make_kind(definition)));
    entries.push(entry("name", Value::String(get_type_name(definition).clone())));
    entries.push(entry("description", Value::Null));
    entries.push(entry("fields", fields));
    entries.push(entry("interfaces", interfaces));
    entries.push(entry("possibleTypes", members));
    entries.push(entry("enumValues", values));
    entries.push(entry("inputFields", Value::Null));
    entries.push(entry("ofType", Value::Null));
    let made = object_of(entries);
    assert(made@->Object_0 =~= type_description(schema@, definition@)->Object_0);
    made
}

/// Makes the description of the type named `name`.
fn describe_named(schema: &SchemaDocument, name: &String) -> (made: Value)
    ensures
        made@ == description_named(schema@, name@),
{
    match get_named_type(schema, name) {
        Some(definition) => describe_type(schema, definition),
        None => Value::Null,
    }
}

/// Makes the description of a schema.
pub fn describe_schema(schema: &SchemaDocument) -> (made: Value)
    ensures
        made@ == schema_description(schema@),
{
    let mut types: Vec<Value> = Vec::new();
    let mut i: usize = 0;
    while i < schema.definitions.len()
        invariant
            i <= schema.definitions.len(),
            values_view(types@) == type_descriptions(schema@, i as int),
        decreases schema.definitions.len() - i,
    {
        let ghost before = values_view(types@);
        let described = describe_type(schema, &schema.definitions[i]);
        types.push(described);
        proof {
            assert(schema@.definitions[i as int] == schema.definitions[i as int]@);
            assert(values_view(types@) =~= before.push(described@));
            assert(type_descriptions(schema@, i as int + 1) =~= type_descriptions(
                schema@,
                i as int,
            ).push(type_description(schema@, schema@.definitions[i as int])));
        }
        i += 1;
    }
    let none: Vec<Value> = Vec::new();
    let directives = list_of(none);
    assert(values_view(none@) =~= Seq::<ValueModel>::empty());
    let mut entries: Vec<(String, Value)> = Vec::new();
    entries.push(entry("types", list_of(types)));
    entries.push(entry("queryType", describe_named(schema, &"Query".to_owned())));
    entries.push(entry("mutationType", describe_named(schema, &"Mutation".to_owned())));
    entries.push(entry("subscriptionType", describe_named(schema, &"Subscription".to_owned())));
    entries.push(entry("directives", directives));
    let made = object_of(entries);
    assert(made@->Object_0 =~= schema_description(schema@)->Object_0);
    made
}

/// Resolves a reference: the description of the type that an object names,
/// and any other value as it is.
fn resolve_reference(schema: &SchemaDocument, value: &Value) -> (made: Value)
    ensures
        made@ == resolved_reference(schema@, value@),
{
    match value {
        Value::Object(entries) => {
            proof {
                Value::lemma_object_view(*entries);
            }
            match Value::get(entries, &"name".to_owned()) {
                Some(Value::String(name)) => match get_named_type(schema, name) {
                    Some(definition) => describe_type(schema, definition),
                    None => value.clone(),
                },
                _ => value.clone(),
            }
        },
        _ => value.clone(),
    }
}

/// The resolver of the meta-fields of a schema.
pub struct IntrospectionResolver<'a> {
    pub schema: &'a SchemaDocument,
}

impl<'a> IntrospectionResolver<'a> {
    /// The resolver that describes `schema`.
    pub fn new(schema: &'a SchemaDocument) -> (resolver: Self)
        ensures
            resolver.schema == schema,
    {
        IntrospectionResolver { schema }
    }

    /// The sub-field of a parent object.
    fn sub_field_of<'b>(parent: &'b Option<Value>, field: &String) -> (found: Option<&'b Value>)
        ensures
            match sub_field(optional_model(*parent), field@) {
                Some(Some(v)) => found is Some && found->Some_0@ == v,
                _ => found is None,
            },
    {
        match parent {
            Some(Value::Object(entries)) => {
                proof {
                    Value::lemma_object_view(*entries);
                }
                Value::get(entries, field)
            },
            _ => None,
        }
    }
}

impl<'a> Resolver for IntrospectionResolver<'a> {
    open spec fn answers(&self, request: Request, answer: Answer) -> bool {
        answer == described(self.schema@, request)
    }

    fn resolve_objects(
        &self,
        parent: &Option<Value>,
        field: &String,
        field_definition: &FieldDefinition,
        object_type: &ObjectType,
        arguments: &Vec<(String, Value)>,
    ) -> (answer: Value) {
        let found = Self::sub_field_of(parent, field);
        match found {
            Some(Value::List(items)) => {
                proof {
                    Value::lemma_list_view(*items);
                }
                if text_is(&object_type.name, "__Type") {
                    let mut resolved: Vec<Value> = Vec::new();
                    let mut i: usize = 0;
                    while i < items.len()
                        invariant
                            i <= items.len(),
                            resolved.len() == i,
                            forall|j: int|
                                0 <= j < i ==> (#[trigger] resolved[j])@ == resolved_reference(
                                    self.schema@,
                                    items[j]@,
                                ),
                        decreases items.len() - i,
                    {
                        resolved.push(resolve_reference(self.schema, &items[i]));
                        i += 1;
                    }
                    let made = list_of(resolved);
                    assert(values_view(resolved@) =~= resolved_references(
                        self.schema@,
                        values_view(items@),
                    ));
                    made
                } else {
                    match found {
                        Some(value) => value.clone(),
                        None => Value::Null,
                    }
                }
            },
            Some(value) => value.clone(),
            None => Value::Null,
        }
    }

    fn resolve_object(
        &self,
        parent: &Option<Value>,
        field: &String,
        field_definition: &FieldDefinition,
        object_type: &ObjectType,
        arguments: &Vec<(String, Value)>,
    ) -> (answer: Value) {
        if text_is(field, "__schema") {
            describe_schema(self.schema)
        } else if text_is(field, "__type") {
            match Value::get(arguments, &"name".to_owned()) {
                Some(Value::String(name)) => describe_named(self.schema, name),
                _ => Value::Null,
            }
        } else {
            match Self::sub_field_of(parent, field) {
                Some(value) => if text_is(&object_type.name, "__Type") {
                    resolve_reference(self.schema, value)
                } else {
                    value.clone()
                },
                None => Value::Null,
            }
        }
    }

    fn resolve_enum_value(&self, enum_type: &EnumType, value: Option<&Value>) -> (answer: Value) {
        match value {
            Some(v) => v.clone(),
            None => Value::Null,
        }
    }

    fn resolve_scalar_value(&self, scalar_type: &ScalarType, value: Option<&Value>) -> (answer:
        Value) {
        match value {
            Some(v) => v.clone(),
            None => Value::Null,
        }
    }

    fn resolve_enum_values(&self, enum_type: &EnumType, value: Option<&Value>) -> (answer: Value) {
        match value {
            Some(v) => v.clone(),
            None => Value::Null,
        }
    }

    fn resolve_scalar_values(&self, scalar_type: &ScalarType, value: Option<&Value>) -> (answer:
        Value) {
        match value {
            Some(v) => v.clone(),
            None => Value::Null,
        }
    }

    fn resolve_abstract_type<'b>(
        &self,
        schema: &'b SchemaDocument,
        abstract_type: &'b TypeDefinition,
        object_value: &Value,
    ) -> (answer: Option<&'b ObjectType>) {
        None
    }
}

} // verus!

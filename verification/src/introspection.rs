//! The schema of the meta-fields: the types through which a query asks about
//! the schema it is executed against.
use vstd::prelude::*;
use crate::schema::{
    EnumType, EnumTypeModel, FieldDefinition, FieldDefinitionModel, InputValue, InputValueModel,
    ObjectType, ObjectTypeModel, ScalarType, ScalarTypeModel, SchemaDocument, SchemaModel, Type,
    TypeDefinition, TypeDefinitionModel, TypeModel,
};
use crate::schema::root_query_name;
use crate::util::{lemma_first_match_at, models};
use crate::value::{Value, ValueModel};

verus! {

/// The type named `name`.
pub open spec fn named(name: Seq<char>) -> TypeModel {
    TypeModel::NamedType(name)
}

/// The non-null type of `inner`.
pub open spec fn required(inner: TypeModel) -> TypeModel {
    TypeModel::NonNullType(Box::new(inner))
}

/// The type of non-null lists of non-null values of the type named `name`.
pub open spec fn full_list(name: Seq<char>) -> TypeModel {
    required(TypeModel::ListType(Box::new(required(named(name)))))
}

/// The type of lists of non-null values of the type named `name`.
pub open spec fn list(name: Seq<char>) -> TypeModel {
    TypeModel::ListType(Box::new(required(named(name))))
}

/// A field without arguments.
pub open spec fn field(name: Seq<char>, field_type: TypeModel) -> FieldDefinitionModel {
    FieldDefinitionModel { name, arguments: Seq::empty(), field_type }
}

/// A field with one argument.
pub open spec fn field_with(
    name: Seq<char>,
    argument: InputValueModel,
    field_type: TypeModel,
) -> FieldDefinitionModel {
    FieldDefinitionModel { name, arguments: seq![argument], field_type }
}

/// The argument that asks for deprecated members too: a `Boolean` that is
/// `false` unless given.
pub open spec fn include_deprecated() -> InputValueModel {
    InputValueModel {
        name: "includeDeprecated"@,
        value_type: named("Boolean"@),
        default_value: Some(ValueModel::Boolean(false)),
    }
}

/// An object type that implements no interface.
pub open spec fn object(name: Seq<char>, fields: Seq<FieldDefinitionModel>) -> TypeDefinitionModel {
    TypeDefinitionModel::Object(
        ObjectTypeModel { name, implements_interfaces: Seq::empty(), fields },
    )
}

/// The root type of the meta-fields: `__schema` describes the schema and
/// `__type` the type of a given name.
pub open spec fn meta_root() -> TypeDefinitionModel {
    object(
        "Query"@,
        seq![
            field("__schema"@, required(named("__Schema"@))),
            field_with(
                "__type"@,
                InputValueModel {
                    name: "name"@,
                    value_type: required(named("String"@)),
                    default_value: None,
                },
                named("__Type"@),
            ),
        ],
    )
}

/// The type that describes a schema.
pub open spec fn meta_schema() -> TypeDefinitionModel {
    object(
        "__Schema"@,
        seq![
            field("types"@, full_list("__Type"@)),
            field("queryType"@, required(named("__Type"@))),
            field("mutationType"@, named("__Type"@)),
            field("subscriptionType"@, named("__Type"@)),
            field("directives"@, full_list("__Directive"@)),
        ],
    )
}

/// The type that describes a type.
pub open spec fn meta_type() -> TypeDefinitionModel {
    object(
        "__Type"@,
        seq![
            field("kind"@, required(named("__TypeKind"@))),
            field("name"@, named("String"@)),
            field("description"@, named("String"@)),
            field_with("fields"@, include_deprecated(), list("__Field"@)),
            field("interfaces"@, list("__Type"@)),
            field("possibleTypes"@, list("__Type"@)),
            field_with("enumValues"@, include_deprecated(), list("__EnumValue"@)),
            field("inputFields"@, list("__InputValue"@)),
            field("ofType"@, named("__Type"@)),
        ],
    )
}

/// The type that describes a field.
pub open spec fn meta_field() -> TypeDefinitionModel {
    object(
        "__Field"@,
        seq![
            field("name"@, required(named("String"@))),
            field("description"@, named("String"@)),
            field("args"@, full_list("__InputValue"@)),
            field("type"@, required(named("__Type"@))),
            field("isDeprecated"@, required(named("Boolean"@))),
            field("deprecationReason"@, named("String"@)),
        ],
    )
}

/// The type that describes an argument or an input field.
pub open spec fn meta_input_value() -> TypeDefinitionModel {
    object(
        "__InputValue"@,
        seq![
            field("name"@, required(named("String"@))),
            field("description"@, named("String"@)),
            field("type"@, required(named("__Type"@))),
            field("defaultValue"@, named("String"@)),
        ],
    )
}

/// The type that describes a value of an enum.
pub open spec fn meta_enum_value() -> TypeDefinitionModel {
    object(
        "__EnumValue"@,
        seq![
            field("name"@, required(named("String"@))),
            field("description"@, named("String"@)),
            field("isDeprecated"@, required(named("Boolean"@))),
            field("deprecationReason"@, named("String"@)),
        ],
    )
}

/// The type that describes a directive.
pub open spec fn meta_directive() -> TypeDefinitionModel {
    object(
        "__Directive"@,
        seq![
            field("name"@, required(named("String"@))),
            field("description"@, named("String"@)),
            field("locations"@, full_list("__DirectiveLocation"@)),
            field("args"@, full_list("__InputValue"@)),
        ],
    )
}

/// The kinds of types.
pub open spec fn meta_type_kind() -> TypeDefinitionModel {
    TypeDefinitionModel::Enum(
        EnumTypeModel {
            name: "__TypeKind"@,
            values: seq![
                "SCALAR"@,
                "OBJECT"@,
                "INTERFACE"@,
                "UNION"@,
                "ENUM"@,
                "INPUT_OBJECT"@,
                "LIST"@,
                "NON_NULL"@,
            ],
        },
    )
}

/// The places where a directive can stand.
pub open spec fn meta_directive_location() -> TypeDefinitionModel {
    TypeDefinitionModel::Enum(
        EnumTypeModel {
            name: "__DirectiveLocation"@,
            values: seq![
                "QUERY"@,
                "MUTATION"@,
                "SUBSCRIPTION"@,
                "FIELD"@,
                "FRAGMENT_DEFINITION"@,
                "FRAGMENT_SPREAD"@,
                "INLINE_FRAGMENT"@,
                "SCHEMA"@,
                "SCALAR"@,
                "OBJECT"@,
                "FIELD_DEFINITION"@,
                "ARGUMENT_DEFINITION"@,
                "INTERFACE"@,
                "UNION"@,
                "ENUM"@,
                "ENUM_VALUE"@,
                "INPUT_OBJECT"@,
                "INPUT_FIELD_DEFINITION"@,
            ],
        },
    )
}

/// The schema of the meta-fields: the two scalars it uses, its root type and
/// the types that describe a schema.
pub open spec fn introspection_model() -> SchemaModel {
    SchemaModel {
        definitions: seq![
            TypeDefinitionModel::Scalar(ScalarTypeModel { name: "Boolean"@ }),
            TypeDefinitionModel::Scalar(ScalarTypeModel { name: "String"@ }),
            meta_root(),
            meta_schema(),
            meta_type(),
            meta_field(),
            meta_input_value(),
            meta_enum_value(),
            meta_type_kind(),
            meta_directive(),
            meta_directive_location(),
        ],
    }
}

/// Builds the type named `name`.
fn make_named(name: &str) -> (t: Type)
    ensures
        t@ == named(name@),
{
    Type::NamedType(name.to_owned())
}

/// Builds the non-null type of `inner`.
fn make_required(inner: Type) -> (t: Type)
    ensures
        t@ == required(inner@),
{
    Type::NonNullType(Box::new(inner))
}

/// Builds the type of lists of non-null values of the type named `name`.
fn make_list(name: &str) -> (t: Type)
    ensures
        t@ == list(name@),
{
    Type::ListType(Box::new(make_required(make_named(name))))
}

/// Builds the type of non-null lists of non-null values of the type named
/// `name`.
fn make_full_list(name: &str) -> (t: Type)
    ensures
        t@ == full_list(name@),
{
    make_required(make_list(name))
}

/// Builds a field without arguments.
fn make_field(name: &str, field_type: Type) -> (f: FieldDefinition)
    ensures
        f@ == field(name@, field_type@),
{
    let f = FieldDefinition { name: name.to_owned(), arguments: Vec::new(), field_type };
    assert(f@.arguments =~= Seq::empty());
    f
}

/// Builds a field with one argument.
fn make_field_with(name: &str, argument: InputValue, field_type: Type) -> (f: FieldDefinition)
    ensures
        f@ == field_with(name@, argument@, field_type@),
{
    let mut arguments: Vec<InputValue> = Vec::new();
    arguments.push(argument);
    let f = FieldDefinition { name: name.to_owned(), arguments, field_type };
    assert(f@.arguments =~= seq![argument@]);
    f
}

/// Builds the argument that asks for deprecated members too.
fn make_include_deprecated() -> (argument: InputValue)
    ensures
        argument@ == include_deprecated(),
{
    InputValue {
        name: "includeDeprecated".to_owned(),
        value_type: make_named("Boolean"),
        default_value: Some(Value::Boolean(false)),
    }
}

/// Builds an object type that implements no interface.
fn make_object(name: &str, fields: Vec<FieldDefinition>) -> (definition: TypeDefinition)
    ensures
        definition@ == object(name@, models(fields@)),
{
    let t = ObjectType { name: name.to_owned(), implements_interfaces: Vec::new(), fields };
    assert(t@.implements_interfaces =~= Seq::empty());
    TypeDefinition::Object(t)
}

/// Builds a scalar type.
fn make_scalar(name: &str) -> (definition: TypeDefinition)
    ensures
        definition@ == TypeDefinitionModel::Scalar(ScalarTypeModel { name: name@ }),
{
    TypeDefinition::Scalar(ScalarType { name: name.to_owned() })
}

/// Builds the owned copies of names.
fn make_names(names: Vec<&'static str>) -> (owned: Vec<String>)
    ensures
        owned.len() == names.len(),
        forall|i: int| 0 <= i < names.len() ==> (#[trigger] owned[i])@ == names[i]@,
{
    let mut owned: Vec<String> = Vec::new();
    let mut i: usize = 0;
    while i < names.len()
        invariant
            i <= names.len(),
            owned.len() == i,
            forall|j: int| 0 <= j < i ==> (#[trigger] owned[j])@ == names[j]@,
        decreases names.len() - i,
    {
        owned.push(names[i].to_owned());
        i += 1;
    }
    owned
}

/// Builds the root type of the meta-fields.
fn make_root() -> (definition: TypeDefinition)
    ensures
        definition@ == meta_root(),
{
    let name = InputValue {
        name: "name".to_owned(),
        value_type: make_required(make_named("String")),
        default_value: None,
    };
    let mut fields: Vec<FieldDefinition> = Vec::new();
    fields.push(make_field("__schema", make_required(make_named("__Schema"))));
    fields.push(make_field_with("__type", name, make_named("__Type")));
    assert(models(fields@) =~= meta_root()->Object_0.fields);
    make_object("Query", fields)
}

/// Builds the type that describes a schema.
fn make_schema() -> (definition: TypeDefinition)
    ensures
        definition@ == meta_schema(),
{
    let mut fields: Vec<FieldDefinition> = Vec::new();
    fields.push(make_field("types", make_full_list("__Type")));
    fields.push(make_field("queryType", make_required(make_named("__Type"))));
    fields.push(make_field("mutationType", make_named("__Type")));
    fields.push(make_field("subscriptionType", make_named("__Type")));
    fields.push(make_field("directives", make_full_list("__Directive")));
    assert(models(fields@) =~= meta_schema()->Object_0.fields);
    make_object("__Schema", fields)
}

/// Builds the type that describes a type.
fn make_type() -> (definition: TypeDefinition)
    ensures
        definition@ == meta_type(),
{
    let mut fields: Vec<FieldDefinition> = Vec::new();
    fields.push(make_field("kind", make_required(make_named("__TypeKind"))));
    fields.push(make_field("name", make_named("String")));
    fields.push(make_field("description", make_named("String")));
    fields.push(make_field_with("fields", make_include_deprecated(), make_list("__Field")));
    fields.push(make_field("interfaces", make_list("__Type")));
    fields.push(make_field("possibleTypes", make_list("__Type")));
    fields.push(
        make_field_with("enumValues", make_include_deprecated(), make_list("__EnumValue")),
    );
    fields.push(make_field("inputFields", make_list("__InputValue")));
    fields.push(make_field("ofType", make_named("__Type")));
    assert(models(fields@) =~= meta_type()->Object_0.fields);
    make_object("__Type", fields)
}

/// Builds the type that describes a field.
fn make_meta_field() -> (definition: TypeDefinition)
    ensures
        definition@ == meta_field(),
{
    let mut fields: Vec<FieldDefinition> = Vec::new();
    fields.push(make_field("name", make_required(make_named("String"))));
    fields.push(make_field("description", make_named("String")));
    fields.push(make_field("args", make_full_list("__InputValue")));
    fields.push(make_field("type", make_required(make_named("__Type"))));
    fields.push(make_field("isDeprecated", make_required(make_named("Boolean"))));
    fields.push(make_field("deprecationReason", make_named("String")));
    assert(models(fields@) =~= meta_field()->Object_0.fields);
    make_object("__Field", fields)
}

/// Builds the type that describes an argument or an input field.
fn make_input_value() -> (definition: TypeDefinition)
    ensures
        definition@ == meta_input_value(),
{
    let mut fields: Vec<FieldDefinition> = Vec::new();
    fields.push(make_field("name", make_required(make_named("String"))));
    fields.push(make_field("description", make_named("String")));
    fields.push(make_field("type", make_required(make_named("__Type"))));
    fields.push(make_field("defaultValue", make_named("String")));
    assert(models(fields@) =~= meta_input_value()->Object_0.fields);
    make_object("__InputValue", fields)
}

/// Builds the type that describes a value of an enum.
fn make_enum_value() -> (definition: TypeDefinition)
    ensures
        definition@ == meta_enum_value(),
{
    let mut fields: Vec<FieldDefinition> = Vec::new();
    fields.push(make_field("name", make_required(make_named("String"))));
    fields.push(make_field("description", make_named("String")));
    fields.push(make_field("isDeprecated", make_required(make_named("Boolean"))));
    fields.push(make_field("deprecationReason", make_named("String")));
    assert(models(fields@) =~= meta_enum_value()->Object_0.fields);
    make_object("__EnumValue", fields)
}

/// Builds the type that describes a directive.
fn make_directive() -> (definition: TypeDefinition)
    ensures
        definition@ == meta_directive(),
{
    let mut fields: Vec<FieldDefinition> = Vec::new();
    fields.push(make_field("name", make_required(make_named("String"))));
    fields.push(make_field("description", make_named("String")));
    fields.push(make_field("locations", make_full_list("__DirectiveLocation")));
    fields.push(make_field("args", make_full_list("__InputValue")));
    assert(models(fields@) =~= meta_directive()->Object_0.fields);
    make_object("__Directive", fields)
}

/// Builds the enum of the kinds of types.
fn make_type_kind() -> (definition: TypeDefinition)
    ensures
        definition@ == meta_type_kind(),
{
    let values = make_names(
        vec!["SCALAR", "OBJECT", "INTERFACE", "UNION", "ENUM", "INPUT_OBJECT", "LIST", "NON_NULL"],
    );
    assert(models(values@) =~= meta_type_kind()->Enum_0.values);
    TypeDefinition::Enum(EnumType { name: "__TypeKind".to_owned(), values })
}

/// Builds the enum of the places where a directive can stand.
fn make_directive_location() -> (definition: TypeDefinition)
    ensures
        definition@ == meta_directive_location(),
{
    let values = make_names(
        vec![
            "QUERY",
            "MUTATION",
            "SUBSCRIPTION",
            "FIELD",
            "FRAGMENT_DEFINITION",
            "FRAGMENT_SPREAD",
            "INLINE_FRAGMENT",
            "SCHEMA",
            "SCALAR",
            "OBJECT",
            "FIELD_DEFINITION",
            "ARGUMENT_DEFINITION",
            "INTERFACE",
            "UNION",
            "ENUM",
            "ENUM_VALUE",
            "INPUT_OBJECT",
            "INPUT_FIELD_DEFINITION",
        ],
    );
    assert(models(values@) =~= meta_directive_location()->Enum_0.values);
    TypeDefinition::Enum(EnumType { name: "__DirectiveLocation".to_owned(), values })
}

/// The root type of the schema of the meta-fields is the type with the fields
/// `__schema` and `__type`, and these are found on it.
pub proof fn lemma_meta_fields_are_defined()
    ensures
        introspection_model().root_query_type() == Some(meta_root()->Object_0),
        meta_root()->Object_0.field("__schema"@) == Some(
            field("__schema"@, required(named("__Schema"@))),
        ),
        meta_root()->Object_0.field("__type"@) is Some,
        meta_root()->Object_0.field("__type"@)->Some_0.name == "__type"@,
        meta_root()->Object_0.field("__type"@)->Some_0.field_type == named("__Type"@),
{
    reveal_strlit("Query");
    reveal_strlit("__schema");
    reveal_strlit("__type");
    let definitions = introspection_model().definitions;
    assert(definitions[0] is Scalar);
    assert(definitions[1] is Scalar);
    assert(definitions[2] == meta_root());
    lemma_first_match_at(
        definitions,
        |d: TypeDefinitionModel| d is Object && d.name() == root_query_name(),
        2,
    );
    let fields = meta_root()->Object_0.fields;
    assert(fields[0].name == "__schema"@);
    assert(fields[1].name == "__type"@);
    assert("__schema"@ != "__type"@) by {
        assert("__schema"@[2] != "__type"@[2]);
    }
    lemma_first_match_at(fields, |f: FieldDefinitionModel| f.name == "__schema"@, 0);
    lemma_first_match_at(fields, |f: FieldDefinitionModel| f.name == "__type"@, 1);
}

/// Builds the schema of the meta-fields.
pub fn introspection_schema() -> (schema: SchemaDocument)
    ensures
        schema@ == introspection_model(),
{
    let mut definitions: Vec<TypeDefinition> = Vec::new();
    definitions.push(make_scalar("Boolean"));
    definitions.push(make_scalar("String"));
    definitions.push(make_root());
    definitions.push(make_schema());
    definitions.push(make_type());
    definitions.push(make_meta_field());
    definitions.push(make_input_value());
    definitions.push(make_enum_value());
    definitions.push(make_type_kind());
    definitions.push(make_directive());
    definitions.push(make_directive_location());
    let schema = SchemaDocument { definitions };
    assert(schema@.definitions =~= introspection_model().definitions);
    schema
}

} // verus!

//! The schema document: type definitions, and the lookups the engine makes in
//! them.
use vstd::prelude::*;
use crate::util::{find_first, lemma_first_match_at, models, strings_eq, text_is};
use crate::value::{value_eq, Value, ValueModel};

verus! {

/// A declared type: a named type, a list of a type, or a non-null type.
#[derive(Debug, PartialEq)]
pub enum Type {
    NamedType(String),
    ListType(Box<Type>),
    NonNullType(Box<Type>),
}

/// The model of a [`Type`].
pub enum TypeModel {
    NamedType(Seq<char>),
    ListType(Box<TypeModel>),
    NonNullType(Box<TypeModel>),
}

/// The model of a declared type.
pub open spec fn type_model(t: Type) -> TypeModel
    decreases t,
{
    match t {
        Type::NamedType(name) => TypeModel::NamedType(name@),
        Type::ListType(inner) => TypeModel::ListType(Box::new(type_model(*inner))),
        Type::NonNullType(inner) => TypeModel::NonNullType(Box::new(type_model(*inner))),
    }
}

impl View for Type {
    type V = TypeModel;

    open spec fn view(&self) -> TypeModel {
        type_model(*self)
    }
}

/// Compares two declared types by their models.
pub fn type_eq(a: &Type, b: &Type) -> (same: bool)
    ensures
        same == (a@ == b@),
    decreases a,
{
    match (a, b) {
        (Type::NamedType(x), Type::NamedType(y)) => *x == *y,
        (Type::ListType(x), Type::ListType(y)) => type_eq(x, y),
        (Type::NonNullType(x), Type::NonNullType(y)) => type_eq(x, y),
        _ => false,
    }
}

/// An argument of a field: its name, its declared type and its default
/// literal, if it has one.
#[derive(Debug, PartialEq)]
pub struct InputValue {
    pub name: String,
    pub value_type: Type,
    pub default_value: Option<Value>,
}

/// The model of an [`InputValue`].
pub struct InputValueModel {
    pub name: Seq<char>,
    pub value_type: TypeModel,
    pub default_value: Option<ValueModel>,
}

impl View for InputValue {
    type V = InputValueModel;

    open spec fn view(&self) -> InputValueModel {
        InputValueModel {
            name: self.name@,
            value_type: self.value_type@,
            default_value: match self.default_value {
                Some(v) => Some(v@),
                None => None,
            },
        }
    }
}

/// Compares two argument definitions by their models.
pub fn input_value_eq(a: &InputValue, b: &InputValue) -> (same: bool)
    ensures
        same == (a@ == b@),
{
    let defaults = match (&a.default_value, &b.default_value) {
        (Some(x), Some(y)) => value_eq(x, y),
        (None, None) => true,
        _ => false,
    };
    a.name == b.name && type_eq(&a.value_type, &b.value_type) && defaults
}

/// A field of an object or interface type.
#[derive(Debug, PartialEq)]
pub struct FieldDefinition {
    pub name: String,
    pub arguments: Vec<InputValue>,
    pub field_type: Type,
}

/// The model of a [`FieldDefinition`].
pub struct FieldDefinitionModel {
    pub name: Seq<char>,
    pub arguments: Seq<InputValueModel>,
    pub field_type: TypeModel,
}

impl View for FieldDefinition {
    type V = FieldDefinitionModel;

    open spec fn view(&self) -> FieldDefinitionModel {
        FieldDefinitionModel {
            name: self.name@,
            arguments: models(self.arguments@),
            field_type: self.field_type@,
        }
    }
}

/// Compares two field definitions by their models.
pub fn field_definition_eq(a: &FieldDefinition, b: &FieldDefinition) -> (same: bool)
    ensures
        same == (a@ == b@),
{
    if !(a.name == b.name) || !type_eq(&a.field_type, &b.field_type) {
        return false;
    }
    if a.arguments.len() != b.arguments.len() {
        assert(a@.arguments.len() != b@.arguments.len());
        return false;
    }
    let mut i: usize = 0;
    while i < a.arguments.len()
        invariant
            i <= a.arguments.len(),
            a.arguments.len() == b.arguments.len(),
            forall|j: int| 0 <= j < i ==> a.arguments[j]@ == b.arguments[j]@,
        decreases a.arguments.len() - i,
    {
        if !input_value_eq(&a.arguments[i], &b.arguments[i]) {
            assert(a@.arguments[i as int] != b@.arguments[i as int]);
            return false;
        }
        i += 1;
    }
    assert(a@.arguments =~= b@.arguments);
    true
}

/// Compares two lists of field definitions by their models.
pub fn field_definitions_eq(a: &Vec<FieldDefinition>, b: &Vec<FieldDefinition>) -> (same: bool)
    ensures
        same == (models(a@) == models(b@)),
{
    if a.len() != b.len() {
        assert(models(a@).len() != models(b@).len());
        return false;
    }
    let mut i: usize = 0;
    while i < a.len()
        invariant
            i <= a.len(),
            a.len() == b.len(),
            forall|j: int| 0 <= j < i ==> a[j]@ == b[j]@,
        decreases a.len() - i,
    {
        if !field_definition_eq(&a[i], &b[i]) {
            assert(models(a@)[i as int] != models(b@)[i as int]);
            return false;
        }
        i += 1;
    }
    assert(models(a@) =~= models(b@));
    true
}

/// An object type: its name, the interfaces it implements and its fields.
#[derive(Debug, PartialEq)]
pub struct ObjectType {
    pub name: String,
    pub implements_interfaces: Vec<String>,
    pub fields: Vec<FieldDefinition>,
}

/// The model of an [`ObjectType`].
pub struct ObjectTypeModel {
    pub name: Seq<char>,
    pub implements_interfaces: Seq<Seq<char>>,
    pub fields: Seq<FieldDefinitionModel>,
}

impl View for ObjectType {
    type V = ObjectTypeModel;

    open spec fn view(&self) -> ObjectTypeModel {
        ObjectTypeModel {
            name: self.name@,
            implements_interfaces: models(self.implements_interfaces@),
            fields: models(self.fields@),
        }
    }
}

/// Compares two object types by their models.
pub fn object_type_eq(a: &ObjectType, b: &ObjectType) -> (same: bool)
    ensures
        same == (a@ == b@),
{
    a.name == b.name && strings_eq(&a.implements_interfaces, &b.implements_interfaces)
        && field_definitions_eq(&a.fields, &b.fields)
}

/// An interface type: its name and its fields.
#[derive(Debug, PartialEq)]
pub struct InterfaceType {
    pub name: String,
    pub fields: Vec<FieldDefinition>,
}

/// The model of an [`InterfaceType`].
pub struct InterfaceTypeModel {
    pub name: Seq<char>,
    pub fields: Seq<FieldDefinitionModel>,
}

impl View for InterfaceType {
    type V = InterfaceTypeModel;

    open spec fn view(&self) -> InterfaceTypeModel {
        InterfaceTypeModel { name: self.name@, fields: models(self.fields@) }
    }
}

/// A union type: its name and the names of its member types.
#[derive(Debug, PartialEq)]
pub struct UnionType {
    pub name: String,
    pub types: Vec<String>,
}

/// The model of a [`UnionType`].
pub struct UnionTypeModel {
    pub name: Seq<char>,
    pub types: Seq<Seq<char>>,
}

impl View for UnionType {
    type V = UnionTypeModel;

    open spec fn view(&self) -> UnionTypeModel {
        UnionTypeModel { name: self.name@, types: models(self.types@) }
    }
}

/// An enum type: its name and the names of its values.
#[derive(Debug, PartialEq)]
pub struct EnumType {
    pub name: String,
    pub values: Vec<String>,
}

/// The model of an [`EnumType`].
pub struct EnumTypeModel {
    pub name: Seq<char>,
    pub values: Seq<Seq<char>>,
}

impl View for EnumType {
    type V = EnumTypeModel;

    open spec fn view(&self) -> EnumTypeModel {
        EnumTypeModel { name: self.name@, values: models(self.values@) }
    }
}

/// A scalar type, known by its name.
#[derive(Debug, PartialEq)]
pub struct ScalarType {
    pub name: String,
}

/// The model of a [`ScalarType`].
pub struct ScalarTypeModel {
    pub name: Seq<char>,
}

impl View for ScalarType {
    type V = ScalarTypeModel;

    open spec fn view(&self) -> ScalarTypeModel {
        ScalarTypeModel { name: self.name@ }
    }
}

/// An input object type, known by its name. The engine accepts no value of
/// such a type.
#[derive(Debug, PartialEq)]
pub struct InputObjectType {
    pub name: String,
}

/// The model of an [`InputObjectType`].
pub struct InputObjectTypeModel {
    pub name: Seq<char>,
}

impl View for InputObjectType {
    type V = InputObjectTypeModel;

    open spec fn view(&self) -> InputObjectTypeModel {
        InputObjectTypeModel { name: self.name@ }
    }
}

/// A type definition of a schema.
#[derive(Debug, PartialEq)]
pub enum TypeDefinition {
    Scalar(ScalarType),
    Object(ObjectType),
    Interface(InterfaceType),
    Union(UnionType),
    Enum(EnumType),
    InputObject(InputObjectType),
}

/// The model of a [`TypeDefinition`].
pub enum TypeDefinitionModel {
    Scalar(ScalarTypeModel),
    Object(ObjectTypeModel),
    Interface(InterfaceTypeModel),
    Union(UnionTypeModel),
    Enum(EnumTypeModel),
    InputObject(InputObjectTypeModel),
}

impl View for TypeDefinition {
    type V = TypeDefinitionModel;

    open spec fn view(&self) -> TypeDefinitionModel {
        match self {
            TypeDefinition::Scalar(t) => TypeDefinitionModel::Scalar(t@),
            TypeDefinition::Object(t) => TypeDefinitionModel::Object(t@),
            TypeDefinition::Interface(t) => TypeDefinitionModel::Interface(t@),
            TypeDefinition::Union(t) => TypeDefinitionModel::Union(t@),
            TypeDefinition::Enum(t) => TypeDefinitionModel::Enum(t@),
            TypeDefinition::InputObject(t) => TypeDefinitionModel::InputObject(t@),
        }
    }
}

impl TypeDefinitionModel {
    /// The name of the defined type.
    pub open spec fn name(self) -> Seq<char> {
        match self {
            TypeDefinitionModel::Scalar(t) => t.name,
            TypeDefinitionModel::Object(t) => t.name,
            TypeDefinitionModel::Interface(t) => t.name,
            TypeDefinitionModel::Union(t) => t.name,
            TypeDefinitionModel::Enum(t) => t.name,
            TypeDefinitionModel::InputObject(t) => t.name,
        }
    }
}

/// A schema: its type definitions, in the order of the document.
#[derive(Debug, PartialEq)]
pub struct SchemaDocument {
    pub definitions: Vec<TypeDefinition>,
}

/// The model of a [`SchemaDocument`].
pub struct SchemaModel {
    pub definitions: Seq<TypeDefinitionModel>,
}

impl View for SchemaDocument {
    type V = SchemaModel;

    open spec fn view(&self) -> SchemaModel {
        SchemaModel { definitions: models(self.definitions@) }
    }
}

/// The name under which the root object type of queries is looked up.
pub open spec fn root_query_name() -> Seq<char> {
    "Query"@
}

impl SchemaModel {
    /// The first type definition named `name`.
    pub open spec fn named_type(self, name: Seq<char>) -> Option<TypeDefinitionModel> {
        find_first(self.definitions, |d: TypeDefinitionModel| d.name() == name)
    }

    /// The root object type of queries: the first object type named `Query`.
    pub open spec fn root_query_type(self) -> Option<ObjectTypeModel> {
        match find_first(
            self.definitions,
            |d: TypeDefinitionModel| d is Object && d.name() == root_query_name(),
        ) {
            Some(d) => Some(d->Object_0),
            None => None,
        }
    }
}

impl ObjectTypeModel {
    /// The first field of the object type named `name`.
    pub open spec fn field(self, name: Seq<char>) -> Option<FieldDefinitionModel> {
        find_first(self.fields, |f: FieldDefinitionModel| f.name == name)
    }
}

/// Returns the name of a type definition.
pub fn get_type_name(definition: &TypeDefinition) -> (name: &String)
    ensures
        name@ == definition@.name(),
{
    match definition {
        TypeDefinition::Scalar(t) => &t.name,
        TypeDefinition::Object(t) => &t.name,
        TypeDefinition::Interface(t) => &t.name,
        TypeDefinition::Union(t) => &t.name,
        TypeDefinition::Enum(t) => &t.name,
        TypeDefinition::InputObject(t) => &t.name,
    }
}

/// Looks up the first type definition of `schema` named `name`.
pub fn get_named_type<'a>(schema: &'a SchemaDocument, name: &String) -> (found: Option<
    &'a TypeDefinition,
>)
    ensures
        match found {
            Some(d) => schema@.named_type(name@) == Some(d@),
            None => schema@.named_type(name@).is_none(),
        },
{
    let mut i: usize = 0;
    while i < schema.definitions.len()
        invariant
            i <= schema.definitions.len(),
            forall|j: int| 0 <= j < i ==> (#[trigger] schema@.definitions[j]).name() != name@,
        decreases schema.definitions.len() - i,
    {
        if *get_type_name(&schema.definitions[i]) == *name {
            proof {
                assert(schema@.definitions[i as int] == schema.definitions[i as int]@);
                lemma_first_match_at(
                schema@.definitions,
                |d: TypeDefinitionModel| d.name() == name@,
                i as int,
            );
            }
            return Some(&schema.definitions[i]);
        }
        assert(schema@.definitions[i as int] == schema.definitions[i as int]@);
        i += 1;
    }
    proof {
        lemma_first_match_at(
                schema@.definitions,
                |d: TypeDefinitionModel| d.name() == name@,
                i as int,
            );
    }
    None
}

/// Whether `name` is the name of the root object type of queries.
pub fn is_root_query_name(name: &String) -> (same: bool)
    ensures
        same == (name@ == root_query_name()),
{
    text_is(name, "Query")
}

/// Looks up the root object type of queries: the first object type of
/// `schema` named `Query`.
pub fn get_root_query_type<'a>(schema: &'a SchemaDocument) -> (found: Option<&'a ObjectType>)
    ensures
        match found {
            Some(t) => schema@.root_query_type() == Some(t@),
            None => schema@.root_query_type().is_none(),
        },
{
    let mut i: usize = 0;
    while i < schema.definitions.len()
        invariant
            i <= schema.definitions.len(),
            forall|j: int|
                0 <= j < i ==> !((#[trigger] schema@.definitions[j]) is Object
                    && schema@.definitions[j].name() == root_query_name()),
        decreases schema.definitions.len() - i,
    {
        assert(schema@.definitions[i as int] == schema.definitions[i as int]@);
        match &schema.definitions[i] {
            TypeDefinition::Object(t) => {
                if is_root_query_name(&t.name) {
                    proof {
                        lemma_first_match_at(
                schema@.definitions,
                |d: TypeDefinitionModel| d is Object && d.name() == root_query_name(),
                i as int,
            );
                    }
                    return Some(t);
                }
            },
            _ => {},
        }
        i += 1;
    }
    proof {
        lemma_first_match_at(
                schema@.definitions,
                |d: TypeDefinitionModel| d is Object && d.name() == root_query_name(),
                i as int,
            );
    }
    None
}

/// Looks up the first field of `object_type` named `name`.
pub fn get_field_type<'a>(object_type: &'a ObjectType, name: &String) -> (found: Option<
    &'a FieldDefinition,
>)
    ensures
        match found {
            Some(f) => object_type@.field(name@) == Some(f@),
            None => object_type@.field(name@).is_none(),
        },
{
    let mut i: usize = 0;
    while i < object_type.fields.len()
        invariant
            i <= object_type.fields.len(),
            forall|j: int| 0 <= j < i ==> (#[trigger] object_type@.fields[j]).name != name@,
        decreases object_type.fields.len() - i,
    {
        assert(object_type@.fields[i as int] == object_type.fields[i as int]@);
        if object_type.fields[i].name == *name {
            proof {
                lemma_first_match_at(
                object_type@.fields,
                |f: FieldDefinitionModel| f.name == name@,
                i as int,
            );
            }
            return Some(&object_type.fields[i]);
        }
        i += 1;
    }
    proof {
        lemma_first_match_at(
                object_type@.fields,
                |f: FieldDefinitionModel| f.name == name@,
                i as int,
            );
    }
    None
}

/// Looks up the argument definitions of the first field of `object_type` named
/// `name`.
pub fn get_argument_definitions<'a>(object_type: &'a ObjectType, name: &String) -> (found: Option<
    &'a Vec<InputValue>,
>)
    ensures
        match found {
            Some(arguments) => match object_type@.field(name@) {
                Some(f) => models(arguments@) == f.arguments,
                None => false,
            },
            None => object_type@.field(name@).is_none(),
        },
{
    match get_field_type(object_type, name) {
        Some(f) => Some(&f.arguments),
        None => None,
    }
}

} // verus!

//! The resolver: the capability through which the engine reaches data.
use vstd::prelude::*;
use crate::schema::{
    EnumType, EnumTypeModel, FieldDefinition, FieldDefinitionModel, ObjectType, ObjectTypeModel,
    ScalarType, ScalarTypeModel, SchemaDocument, SchemaModel, TypeDefinition,
    TypeDefinitionModel,
};
use crate::value::{entries_view, Value, ValueModel};

verus! {

/// Turns a parent value and a field into a raw value. The engine shapes what
/// a resolver returns; it expects nothing of it.
///
/// A resolver says for itself, in `answers`, which answers it gives to which
/// requests; one that says nothing there answers anything. The engine relies
/// on no more than that each answer it gets is an answer to the request it
/// made.
pub trait Resolver {
    /// Whether the resolver may give `answer` when it is asked `request`.
    /// Unless a resolver says otherwise, it may give any answer.
    open spec fn answers(&self, request: Request, answer: Answer) -> bool {
        true
    }

    /// Resolves the list of objects behind a field of the parent object.
    fn resolve_objects(
        &self,
        parent: &Option<Value>,
        field: &String,
        field_definition: &FieldDefinition,
        object_type: &ObjectType,
        arguments: &Vec<(String, Value)>,
    ) -> (answer: Value)
        ensures
            self.answers(
                Request::Objects {
                    parent: optional_model(*parent),
                    field: field@,
                    definition: field_definition@,
                    object_type: object_type@,
                    arguments: entries_view(arguments@),
                },
                Answer::Value(answer@),
            ),
    ;

    /// Resolves the object behind a field of the parent object.
    fn resolve_object(
        &self,
        parent: &Option<Value>,
        field: &String,
        field_definition: &FieldDefinition,
        object_type: &ObjectType,
        arguments: &Vec<(String, Value)>,
    ) -> (answer: Value)
        ensures
            self.answers(
                Request::Object {
                    parent: optional_model(*parent),
                    field: field@,
                    definition: field_definition@,
                    object_type: object_type@,
                    arguments: entries_view(arguments@),
                },
                Answer::Value(answer@),
            ),
    ;

    /// Resolves an enum value from the sub-field of a parent object.
    fn resolve_enum_value(&self, enum_type: &EnumType, value: Option<&Value>) -> (answer: Value)
        ensures
            self.answers(
                Request::EnumValue { enum_type: enum_type@, value: borrowed_model(value) },
                Answer::Value(answer@),
            ),
    ;

    /// Resolves a scalar value from the sub-field of a parent object.
    fn resolve_scalar_value(&self, scalar_type: &ScalarType, value: Option<&Value>) -> (answer:
        Value)
        ensures
            self.answers(
                Request::ScalarValue { scalar_type: scalar_type@, value: borrowed_model(value) },
                Answer::Value(answer@),
            ),
    ;

    /// Resolves a list of enum values from the sub-field of a parent object.
    fn resolve_enum_values(&self, enum_type: &EnumType, value: Option<&Value>) -> (answer: Value)
        ensures
            self.answers(
                Request::EnumValues { enum_type: enum_type@, value: borrowed_model(value) },
                Answer::Value(answer@),
            ),
    ;

    /// Resolves a list of scalar values from the sub-field of a parent object.
    fn resolve_scalar_values(&self, scalar_type: &ScalarType, value: Option<&Value>) -> (answer:
        Value)
        ensures
            self.answers(
                Request::ScalarValues { scalar_type: scalar_type@, value: borrowed_model(value) },
                Answer::Value(answer@),
            ),
    ;

    /// Picks the object type that a value of an interface or union type of
    /// `schema` has, or `None` when it cannot tell.
    fn resolve_abstract_type<'a>(
        &self,
        schema: &'a SchemaDocument,
        abstract_type: &'a TypeDefinition,
        object_value: &Value,
    ) -> (answer: Option<&'a ObjectType>)
        ensures
            self.answers(
                Request::AbstractType {
                    schema: schema@,
                    abstract_type: abstract_type@,
                    object_value: object_value@,
                },
                Answer::ObjectType(picked_model(answer)),
            ),
    ;
}

/// What the engine asks of a resolver: the method, with the models of its
/// arguments.
pub enum Request {
    Objects {
        parent: Option<ValueModel>,
        field: Seq<char>,
        definition: FieldDefinitionModel,
        object_type: ObjectTypeModel,
        arguments: Seq<(Seq<char>, ValueModel)>,
    },
    Object {
        parent: Option<ValueModel>,
        field: Seq<char>,
        definition: FieldDefinitionModel,
        object_type: ObjectTypeModel,
        arguments: Seq<(Seq<char>, ValueModel)>,
    },
    EnumValue { enum_type: EnumTypeModel, value: Option<ValueModel> },
    ScalarValue { scalar_type: ScalarTypeModel, value: Option<ValueModel> },
    EnumValues { enum_type: EnumTypeModel, value: Option<ValueModel> },
    ScalarValues { scalar_type: ScalarTypeModel, value: Option<ValueModel> },
    AbstractType { schema: SchemaModel, abstract_type: TypeDefinitionModel, object_value: ValueModel },
}

/// What a resolver gave back: a value, or its choice of an object type.
pub enum Answer {
    Value(ValueModel),
    ObjectType(Option<ObjectTypeModel>),
}

/// One call of a resolver: which of the two resolvers was asked, what it was
/// asked and what it answered.
pub struct ResolverCall {
    pub introspection: bool,
    pub request: Request,
    pub answer: Answer,
}

/// The model of the object type that a resolver picked, if it picked one.
pub open spec fn picked_model(picked: Option<&ObjectType>) -> Option<ObjectTypeModel> {
    match picked {
        Some(t) => Some(t@),
        None => None,
    }
}

/// The model of an optional value.
pub open spec fn optional_model(value: Option<Value>) -> Option<ValueModel> {
    match value {
        Some(v) => Some(v@),
        None => None,
    }
}

/// The model of an optional borrowed value.
pub open spec fn borrowed_model(value: Option<&Value>) -> Option<ValueModel> {
    match value {
        Some(v) => Some(v@),
        None => None,
    }
}

} // verus!

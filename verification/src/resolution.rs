//! The resolution of fields: which resolver is asked for what.
use vstd::prelude::*;
use crate::ast::Field;
use crate::error::{ErrorModel, ExecutionError};
use crate::execution::{outcome, Execution};
use crate::resolver::{
    borrowed_model, optional_model, Answer, Request, Resolver, ResolverCall,
};
use crate::schema::{
    get_named_type, get_type_name, EnumType, FieldDefinition, ObjectType, ObjectTypeModel,
    ScalarType, Type, TypeDefinition, TypeModel,
};
use crate::semantics::{picked, resolve, resolve_list, resolve_named, Resolved};
use crate::util::models;
use crate::value::{entries_view, Value};

verus! {

/// The trace of one call.
pub open spec fn single(call: ResolverCall) -> Seq<ResolverCall> {
    seq![call]
}

/// A trace that starts with one call has that call first and the rest after
/// it.
pub proof fn lemma_single_first(call: ResolverCall)
    ensures
        forall|rest: Seq<ResolverCall>|
            (#[trigger] (single(call) + rest)).len() > 0 && (single(call) + rest)[0] == call && (
            single(call) + rest).skip(1) == rest,
{
    assert forall|rest: Seq<ResolverCall>|
        (#[trigger] (single(call) + rest)).len() > 0 && (single(call) + rest)[0] == call && (
        single(call) + rest).skip(1) == rest by {
        assert((single(call) + rest).skip(1) =~= rest);
    }
}

impl<'a, R1: Resolver, R2: Resolver> Execution<'a, R1, R2> {
    /// Whether `after` is `before` with `calls` made and `errors` raised since,
    /// and nothing else changed.
    pub open spec fn advanced(
        before: Self,
        after: Self,
        calls: Seq<ResolverCall>,
        errors: Seq<ErrorModel>,
    ) -> bool {
        &&& after.schema == before.schema
        &&& after.introspection_schema == before.introspection_schema
        &&& after.document == before.document
        &&& after.resolver == before.resolver
        &&& after.introspection_resolver == before.introspection_resolver
        &&& after.fields@ == before.fields@
        &&& after.introspecting == before.introspecting
        &&& after.calls@ == before.calls@ + calls
        &&& models(after.errors@) == models(before.errors@) + errors
        &&& before.all_answered(calls)
    }

    /// Whether `call` is a call that the resolver it names has answered: the
    /// answer on record is one that this resolver gives to the request on
    /// record.
    pub open spec fn answered(self, call: ResolverCall) -> bool {
        if call.introspection {
            self.introspection_resolver.answers(call.request, call.answer)
        } else {
            self.resolver.answers(call.request, call.answer)
        }
    }

    /// Whether each of `calls` is a call that the resolver it names has
    /// answered.
    pub open spec fn all_answered(self, calls: Seq<ResolverCall>) -> bool {
        forall|i: int| 0 <= i < calls.len() ==> self.answered(#[trigger] calls[i])
    }

    /// Calls that were answered, followed by calls that were answered, are
    /// calls that were answered.
    pub proof fn lemma_answered_join(self, first: Seq<ResolverCall>, then: Seq<ResolverCall>)
        requires
            self.all_answered(first),
            self.all_answered(then),
        ensures
            self.all_answered(first + then),
    {
        assert forall|i: int| 0 <= i < (first + then).len() implies self.answered(
            #[trigger] (first + then)[i],
        ) by {
            if i < first.len() {
                assert((first + then)[i] == first[i]);
            } else {
                assert((first + then)[i] == then[i - first.len()]);
            }
        }
    }

    /// Asks the resolver in charge for the object, or the list of objects,
    /// behind a field.
    fn ask_object(
        &mut self,
        listed: bool,
        parent: &Option<Value>,
        field: &String,
        definition: &FieldDefinition,
        object_type: &ObjectType,
        arguments: &Vec<(String, Value)>,
    ) -> (out: (Value, Ghost<ResolverCall>))
        ensures
            out.1@.introspection == old(self).introspecting,
            out.1@.answer == Answer::Value(out.0@),
            listed ==> out.1@.request == (Request::Objects {
                parent: optional_model(*parent),
                field: field@,
                definition: definition@,
                object_type: object_type@,
                arguments: entries_view(arguments@),
            }),
            !listed ==> out.1@.request == (Request::Object {
                parent: optional_model(*parent),
                field: field@,
                definition: definition@,
                object_type: object_type@,
                arguments: entries_view(arguments@),
            }),
            Self::advanced(*old(self), *final(self), single(out.1@), Seq::empty()),
    {
        let value = if self.introspecting {
            if listed {
                self.introspection_resolver.resolve_objects(
                    parent,
                    field,
                    definition,
                    object_type,
                    arguments,
                )
            } else {
                self.introspection_resolver.resolve_object(
                    parent,
                    field,
                    definition,
                    object_type,
                    arguments,
                )
            }
        } else {
            if listed {
                self.resolver.resolve_objects(parent, field, definition, object_type, arguments)
            } else {
                self.resolver.resolve_object(parent, field, definition, object_type, arguments)
            }
        };
        let ghost request = if listed {
            Request::Objects {
                parent: optional_model(*parent),
                field: field@,
                definition: definition@,
                object_type: object_type@,
                arguments: entries_view(arguments@),
            }
        } else {
            Request::Object {
                parent: optional_model(*parent),
                field: field@,
                definition: definition@,
                object_type: object_type@,
                arguments: entries_view(arguments@),
            }
        };
        let ghost call = ResolverCall {
            introspection: self.introspecting,
            request,
            answer: Answer::Value(value@),
        };
        proof {
            self.calls@ = self.calls@.push(call);
            assert(self.calls@ =~= old(self).calls@ + single(call));
            assert(models(self.errors@) =~= models(old(self).errors@) + Seq::empty());
        }
        (value, Ghost(call))
    }

    /// Asks the resolver in charge for an enum value, or a list of enum
    /// values, from a sub-field of the parent object.
    fn ask_enum(&mut self, listed: bool, enum_type: &EnumType, value: Option<&Value>) -> (out: (
        Value,
        Ghost<ResolverCall>,
    ))
        ensures
            out.1@.introspection == old(self).introspecting,
            out.1@.answer == Answer::Value(out.0@),
            listed ==> out.1@.request == (Request::EnumValues {
                enum_type: enum_type@,
                value: borrowed_model(value),
            }),
            !listed ==> out.1@.request == (Request::EnumValue {
                enum_type: enum_type@,
                value: borrowed_model(value),
            }),
            Self::advanced(*old(self), *final(self), single(out.1@), Seq::empty()),
    {
        let answer = if self.introspecting {
            if listed {
                self.introspection_resolver.resolve_enum_values(enum_type, value)
            } else {
                self.introspection_resolver.resolve_enum_value(enum_type, value)
            }
        } else {
            if listed {
                self.resolver.resolve_enum_values(enum_type, value)
            } else {
                self.resolver.resolve_enum_value(enum_type, value)
            }
        };
        let ghost request = if listed {
            Request::EnumValues {
                enum_type: enum_type@,
                value: borrowed_model(value),
            }
        } else {
            Request::EnumValue {
                enum_type: enum_type@,
                value: borrowed_model(value),
            }
        };
        let ghost call = ResolverCall {
            introspection: self.introspecting,
            request,
            answer: Answer::Value(answer@),
        };
        proof {
            self.calls@ = self.calls@.push(call);
            assert(self.calls@ =~= old(self).calls@ + single(call));
            assert(models(self.errors@) =~= models(old(self).errors@) + Seq::empty());
        }
        (answer, Ghost(call))
    }

    /// Asks the resolver in charge for a scalar value, or a list of scalar
    /// values, from a sub-field of the parent object.
    fn ask_scalar(&mut self, listed: bool, scalar_type: &ScalarType, value: Option<&Value>) -> (out:
        (Value, Ghost<ResolverCall>))
        ensures
            out.1@.introspection == old(self).introspecting,
            out.1@.answer == Answer::Value(out.0@),
            listed ==> out.1@.request == (Request::ScalarValues {
                scalar_type: scalar_type@,
                value: borrowed_model(value),
            }),
            !listed ==> out.1@.request == (Request::ScalarValue {
                scalar_type: scalar_type@,
                value: borrowed_model(value),
            }),
            Self::advanced(*old(self), *final(self), single(out.1@), Seq::empty()),
    {
        let answer = if self.introspecting {
            if listed {
                self.introspection_resolver.resolve_scalar_values(scalar_type, value)
            } else {
                self.introspection_resolver.resolve_scalar_value(scalar_type, value)
            }
        } else {
            if listed {
                self.resolver.resolve_scalar_values(scalar_type, value)
            } else {
                self.resolver.resolve_scalar_value(scalar_type, value)
            }
        };
        let ghost request = if listed {
            Request::ScalarValues {
                scalar_type: scalar_type@,
                value: borrowed_model(value),
            }
        } else {
            Request::ScalarValue {
                scalar_type: scalar_type@,
                value: borrowed_model(value),
            }
        };
        let ghost call = ResolverCall {
            introspection: self.introspecting,
            request,
            answer: Answer::Value(answer@),
        };
        proof {
            self.calls@ = self.calls@.push(call);
            assert(self.calls@ =~= old(self).calls@ + single(call));
            assert(models(self.errors@) =~= models(old(self).errors@) + Seq::empty());
        }
        (answer, Ghost(call))
    }

    /// Asks the resolver in charge which object type a value of an interface
    /// or union type has.
    fn ask_abstract_type(&mut self, abstract_type: &'a TypeDefinition, object_value: &Value) -> (out:
        (Option<&'a ObjectType>, Ghost<ResolverCall>))
        ensures
            out.1@.introspection == old(self).introspecting,
            out.1@.answer == Answer::ObjectType(
                match out.0 {
                    Some(t) => Some(t@),
                    None => None,
                },
            ),
            out.1@.request == (Request::AbstractType {
                schema: old(self).scope().active(old(self).introspecting),
                abstract_type: abstract_type@,
                object_value: object_value@,
            }),
            Self::advanced(*old(self), *final(self), single(out.1@), Seq::empty()),
    {
        let schema = self.active_schema();
        let picked = if self.introspecting {
            self.introspection_resolver.resolve_abstract_type(schema, abstract_type, object_value)
        } else {
            self.resolver.resolve_abstract_type(schema, abstract_type, object_value)
        };
        let ghost call = ResolverCall {
            introspection: self.introspecting,
            request: Request::AbstractType {
                schema: schema@,
                abstract_type: abstract_type@,
                object_value: object_value@,
            },
            answer: Answer::ObjectType(
                match picked {
                    Some(t) => Some(t@),
                    None => None,
                },
            ),
        };
        proof {
            self.calls@ = self.calls@.push(call);
            assert(self.calls@ =~= old(self).calls@ + single(call));
            assert(models(self.errors@) =~= models(old(self).errors@) + Seq::empty());
        }
        (picked, Ghost(call))
    }

    /// Resolves an abstract type (interface, union) into an object type based
    /// on the given value.
    pub fn resolve_abstract_type(
        &mut self,
        abstract_type: &'a TypeDefinition,
        object_value: &Value,
    ) -> (out: (Result<&'a ObjectType, ExecutionError>, Ghost<Seq<ResolverCall>>))
        ensures
            Self::advanced(*old(self), *final(self), out.1@, Seq::empty()),
            out.1@.len() == 1,
            match out.0 {
                Ok(t) => forall|rest: Seq<ResolverCall>|
                    #[trigger] picked(
                        out.1@ + rest,
                        old(self).introspecting,
                        old(self).scope().active(old(self).introspecting),
                        abstract_type@,
                        object_value@,
                    ) == Some((Some(t@), rest)),
                Err(e) => e@ == ErrorModel::AbstractTypeError(abstract_type@.name())
                    && forall|rest: Seq<ResolverCall>|
                    #[trigger] picked(
                        out.1@ + rest,
                        old(self).introspecting,
                        old(self).scope().active(old(self).introspecting),
                        abstract_type@,
                        object_value@,
                    ) == Some((None::<ObjectTypeModel>, rest)),
            },
    {
        let (picked_type, Ghost(call)) = self.ask_abstract_type(abstract_type, object_value);
        proof {
                    lemma_single_first(call);
                }
        match picked_type {
            Some(t) => (Ok(t), Ghost(single(call))),
            None => (
                Err(ExecutionError::AbstractTypeError(get_type_name(abstract_type).clone())),
                Ghost(single(call)),
            ),
        }
    }

    /// Resolves the value of a field that corresponds to a named type.
    pub fn resolve_field_value_for_named_type(
        &mut self,
        object_value: &Option<Value>,
        field: &Field,
        field_definition: &FieldDefinition,
        named: &String,
        argument_values: &Vec<(String, Value)>,
    ) -> (out: (Result<Value, ExecutionError>, Ghost<Seq<ResolverCall>>))
        ensures
            Self::advanced(*old(self), *final(self), out.1@, Seq::empty()),
            forall|rest: Seq<ResolverCall>|
                #[trigger] resolve_named(
                    old(self).scope(),
                    old(self).introspecting,
                    optional_model(*object_value),
                    field@,
                    field_definition@,
                    named@,
                    entries_view(argument_values@),
                    out.1@ + rest,
                ) == Some(Resolved { result: outcome(out.0), rest }),
    {
        let ghost none: Seq<ResolverCall> = Seq::empty();
        proof {
            assert forall|rest: Seq<ResolverCall>| none + rest == rest by {
                assert(none + rest =~= rest);
            }
            assert(self.calls@ =~= self.calls@ + none);
            assert(models(self.errors@) =~= models(self.errors@) + Seq::empty());
        }
        match get_named_type(self.active_schema(), named) {
            None => (Err(ExecutionError::NamedTypeError(named.clone())), Ghost(none)),
            Some(TypeDefinition::Object(t)) => {
                let (value, Ghost(call)) = self.ask_object(
                    false,
                    object_value,
                    &field.name,
                    field_definition,
                    t,
                    argument_values,
                );
                proof {
                    lemma_single_first(call);
                }
                (Ok(value), Ghost(single(call)))
            },
            Some(TypeDefinition::Enum(t)) => match object_value {
                Some(Value::Object(entries)) => {
                    proof {
                        Value::lemma_object_view(*entries);
                    }
                    let sub = Value::get(entries, &field.name);
                    let (value, Ghost(call)) = self.ask_enum(false, t, sub);
                    proof {
                    lemma_single_first(call);
                }
                    (Ok(value), Ghost(single(call)))
                },
                _ => (Ok(Value::Null), Ghost(none)),
            },
            Some(TypeDefinition::Scalar(t)) => match object_value {
                Some(Value::Object(entries)) => {
                    proof {
                        Value::lemma_object_view(*entries);
                    }
                    let sub = Value::get(entries, &field.name);
                    let (value, Ghost(call)) = self.ask_scalar(false, t, sub);
                    proof {
                    lemma_single_first(call);
                }
                    (Ok(value), Ghost(single(call)))
                },
                _ => (Ok(Value::Null), Ghost(none)),
            },
            Some(_) => (
                Err(
                    ExecutionError::NotSupported(
                        "Only fields of object, enum and scalar types can be resolved".to_owned(),
                    ),
                ),
                Ghost(none),
            ),
        }
    }

    /// Resolves the value of a field that corresponds to a list type.
    pub fn resolve_field_value_for_list_type(
        &mut self,
        object_type: &ObjectType,
        object_value: &Option<Value>,
        field: &Field,
        field_definition: &FieldDefinition,
        inner_type: &Type,
        argument_values: &Vec<(String, Value)>,
    ) -> (out: (Result<Value, ExecutionError>, Ghost<Seq<ResolverCall>>))
        ensures
            Self::advanced(*old(self), *final(self), out.1@, Seq::empty()),
            forall|rest: Seq<ResolverCall>|
                #[trigger] resolve_list(
                    old(self).scope(),
                    old(self).introspecting,
                    optional_model(*object_value),
                    field@,
                    field_definition@,
                    inner_type@,
                    entries_view(argument_values@),
                    out.1@ + rest,
                ) == Some(Resolved { result: outcome(out.0), rest }),
        decreases inner_type,
    {
        let ghost none: Seq<ResolverCall> = Seq::empty();
        proof {
            assert forall|rest: Seq<ResolverCall>| none + rest == rest by {
                assert(none + rest =~= rest);
            }
            assert(self.calls@ =~= self.calls@ + none);
            assert(models(self.errors@) =~= models(self.errors@) + Seq::empty());
        }
        match inner_type {
            Type::NonNullType(inner) => {
                let out = self.resolve_field_value_for_list_type(
                    object_type,
                    object_value,
                    field,
                    field_definition,
                    inner,
                    argument_values,
                );
                proof {
                    assert(inner_type@ == TypeModel::NonNullType(Box::new(inner@)));
                    assert forall|rest: Seq<ResolverCall>|
                        #[trigger] resolve_list(
                            old(self).scope(),
                            old(self).introspecting,
                            optional_model(*object_value),
                            field@,
                            field_definition@,
                            inner_type@,
                            entries_view(argument_values@),
                            out.1@ + rest,
                        ) == Some(Resolved { result: outcome(out.0), rest }) by {
                        assert(resolve_list(
                            old(self).scope(),
                            old(self).introspecting,
                            optional_model(*object_value),
                            field@,
                            field_definition@,
                            inner@,
                            entries_view(argument_values@),
                            out.1@ + rest,
                        ) == Some(Resolved { result: outcome(out.0), rest }));
                    }
                }
                out
            },
            Type::ListType(_) => (
                Err(ExecutionError::NotSupported("Lists of lists are not supported".to_owned())),
                Ghost(none),
            ),
            Type::NamedType(named) => {
                match get_named_type(self.active_schema(), named) {
                    None => (Err(ExecutionError::NamedTypeError(named.clone())), Ghost(none)),
                    Some(TypeDefinition::Object(t)) => {
                        let (value, Ghost(call)) = self.ask_object(
                            true,
                            object_value,
                            &field.name,
                            field_definition,
                            t,
                            argument_values,
                        );
                        proof {
                    lemma_single_first(call);
                }
                        (Ok(value), Ghost(single(call)))
                    },
                    Some(TypeDefinition::Enum(t)) => match object_value {
                        Some(Value::Object(entries)) => {
                            proof {
                                Value::lemma_object_view(*entries);
                            }
                            let sub = Value::get(entries, &field.name);
                            let (value, Ghost(call)) = self.ask_enum(true, t, sub);
                            proof {
                    lemma_single_first(call);
                }
                            (Ok(value), Ghost(single(call)))
                        },
                        _ => (Ok(Value::Null), Ghost(none)),
                    },
                    Some(TypeDefinition::Scalar(t)) => match object_value {
                        Some(Value::Object(entries)) => {
                            proof {
                                Value::lemma_object_view(*entries);
                            }
                            let sub = Value::get(entries, &field.name);
                            let (value, Ghost(call)) = self.ask_scalar(true, t, sub);
                            proof {
                    lemma_single_first(call);
                }
                            (Ok(value), Ghost(single(call)))
                        },
                        _ => (Ok(Value::Null), Ghost(none)),
                    },
                    Some(_) => (
                        Err(
                            ExecutionError::NotSupported(
                                "Only fields of object, enum and scalar types can be resolved"
                                    .to_owned(),
                            ),
                        ),
                        Ghost(none),
                    ),
                }
            },
        }
    }

    /// Resolves the value of a field.
    pub fn resolve_field_value(
        &mut self,
        object_type: &ObjectType,
        object_value: &Option<Value>,
        field: &Field,
        field_definition: &FieldDefinition,
        field_type: &Type,
        argument_values: &Vec<(String, Value)>,
    ) -> (out: (Result<Value, ExecutionError>, Ghost<Seq<ResolverCall>>))
        ensures
            Self::advanced(*old(self), *final(self), out.1@, Seq::empty()),
            forall|rest: Seq<ResolverCall>|
                #[trigger] resolve(
                    old(self).scope(),
                    old(self).introspecting,
                    optional_model(*object_value),
                    field@,
                    field_definition@,
                    field_type@,
                    entries_view(argument_values@),
                    out.1@ + rest,
                ) == Some(Resolved { result: outcome(out.0), rest }),
        decreases field_type,
    {
        match field_type {
            Type::NonNullType(inner) => {
                let out = self.resolve_field_value(
                    object_type,
                    object_value,
                    field,
                    field_definition,
                    inner,
                    argument_values,
                );
                proof {
                    assert(field_type@ == TypeModel::NonNullType(Box::new(inner@)));
                    assert forall|rest: Seq<ResolverCall>|
                        #[trigger] resolve(
                            old(self).scope(),
                            old(self).introspecting,
                            optional_model(*object_value),
                            field@,
                            field_definition@,
                            field_type@,
                            entries_view(argument_values@),
                            out.1@ + rest,
                        ) == Some(Resolved { result: outcome(out.0), rest }) by {
                        assert(resolve(
                            old(self).scope(),
                            old(self).introspecting,
                            optional_model(*object_value),
                            field@,
                            field_definition@,
                            inner@,
                            entries_view(argument_values@),
                            out.1@ + rest,
                        ) == Some(Resolved { result: outcome(out.0), rest }));
                    }
                }
                out
            },
            Type::NamedType(name) => self.resolve_field_value_for_named_type(
                object_value,
                field,
                field_definition,
                name,
                argument_values,
            ),
            Type::ListType(inner) => {
                let out = self.resolve_field_value_for_list_type(
                    object_type,
                    object_value,
                    field,
                    field_definition,
                    inner,
                    argument_values,
                );
                proof {
                    assert(field_type@ == TypeModel::ListType(Box::new(inner@)));
                }
                out
            },
        }
    }
}

} // verus!
